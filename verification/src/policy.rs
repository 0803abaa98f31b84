//! Group policy pruning: whitelist, then blacklist.
//!
//! A launch group may carry a whitelist of substrings and a blacklist of
//! regular-expression patterns. Pruning never reorders the view: it only
//! drops items, whitelist first, and a malformed blacklist pattern is
//! skipped rather than fatal.

use vstd::prelude::*;
use crate::config::LaunchGroup;
use crate::model::Entry;
use crate::text::{contains_seq, contains_sub};

verus! {

/// Whether `regex::Regex::new` accepts `pattern`: a property of the
/// pattern alone.
pub uninterp spec fn regex_compiles(pattern: Seq<char>) -> bool;

/// Whether the compiled `pattern` matches somewhere inside `text`: a
/// pure function of the two strings.
pub uninterp spec fn regex_match_of(pattern: Seq<char>, text: Seq<char>) -> bool;

/// Relies on `regex::Regex::new`, whose success depends on the pattern
/// alone, and `regex::Regex::is_match`, a pure function of pattern and
/// text. `None` reports a pattern that does not compile.
#[verifier::external_body]
fn regex_is_match(pattern: &str, text: &str) -> (r: Option<bool>)
    ensures
        r is Some <==> regex_compiles(pattern@),
        r is Some ==> r->Some_0 == regex_match_of(pattern@, text@),
{
    match regex::Regex::new(pattern) {
        Ok(re) => Some(re.is_match(text)),
        Err(_) => None,
    }
}

/// The whitelist keeps `e`: there is no whitelist, or some whitelist
/// substring occurs in the display name or in the id.
pub open spec fn passes_whitelist(gc: LaunchGroup, e: Entry) -> bool {
    gc.whitelist is Some ==> exists|k: int|
        0 <= k < gc.whitelist->Some_0@.len() && (contains_seq(e.name@, gc.whitelist->Some_0@[k]@)
            || contains_seq(e.id@, gc.whitelist->Some_0@[k]@))
}

/// A well-formed blacklist pattern that matches the display name or the id.
pub open spec fn blacklist_hits(p: Seq<char>, e: Entry) -> bool {
    regex_compiles(p) && (regex_match_of(p, e.name@) || regex_match_of(p, e.id@))
}

/// The blacklist keeps `e`: no well-formed pattern matches its display
/// name or id. Patterns that do not compile are skipped.
pub open spec fn passes_blacklist(gc: LaunchGroup, e: Entry) -> bool {
    gc.blacklist is Some ==> !(exists|k: int|
        0 <= k < gc.blacklist->Some_0@.len() && blacklist_hits(gc.blacklist->Some_0@[k]@, e))
}

/// The group policy keeps `e`: the whitelist keeps it, and then the
/// blacklist keeps it. Without a group there is no pruning.
pub open spec fn passes_policy(gc: Option<LaunchGroup>, e: Entry) -> bool {
    gc is Some ==> passes_whitelist(gc->Some_0, e) && passes_blacklist(gc->Some_0, e)
}

/// Whitelist pruning is applied strictly before blacklist pruning: an
/// item that fails the whitelist is never kept by the policy, no matter
/// how the blacklist treats it.
pub proof fn lemma_whitelist_dominates(gc: LaunchGroup, e: Entry)
    requires
        !passes_whitelist(gc, e),
    ensures
        !passes_policy(Some(gc), e),
{
}

/// Decides whether the group policy keeps `e`.
pub fn entry_passes(gc: &LaunchGroup, e: &Entry) -> (r: bool)
    ensures
        r == passes_policy(Some(*gc), *e),
{
    match gc.whitelist.as_ref() {
        Some(wl) => {
            let n = wl.len();
            let mut found = false;
            let mut i: usize = 0;
            while i < n
                invariant
                    gc.whitelist is Some && *wl == gc.whitelist->Some_0,
                    n == wl@.len(),
                    i <= n,
                    found ==> exists|k: int|
                        0 <= k < n && (contains_seq(e.name@, wl@[k]@) || contains_seq(
                            e.id@,
                            wl@[k]@,
                        )),
                    !found ==> forall|k: int|
                        0 <= k < i ==> !contains_seq(e.name@, wl@[k]@) && !contains_seq(
                            e.id@,
                            wl@[k]@,
                        ),
                decreases n - i,
            {
                if !found {
                    if contains_sub(e.name.as_str(), wl[i].as_str()) || contains_sub(
                        e.id.as_str(),
                        wl[i].as_str(),
                    ) {
                        found = true;
                    }
                }
                i += 1;
            }
            if !found {
                return false;
            }
        },
        None => {},
    }
    match gc.blacklist.as_ref() {
        Some(bl) => {
            let n = bl.len();
            let mut i: usize = 0;
            while i < n
                invariant
                    gc.blacklist is Some && *bl == gc.blacklist->Some_0,
                    n == bl@.len(),
                    i <= n,
                    forall|k: int| 0 <= k < i ==> !blacklist_hits(bl@[k]@, *e),
                decreases n - i,
            {
                match regex_is_match(bl[i].as_str(), e.name.as_str()) {
                    Some(true) => {
                        proof {
                            assert(blacklist_hits(bl@[i as int]@, *e));
                        }
                        return false;
                    },
                    Some(false) => {
                        match regex_is_match(bl[i].as_str(), e.id.as_str()) {
                            Some(true) => {
                                proof {
                                    assert(blacklist_hits(bl@[i as int]@, *e));
                                }
                                return false;
                            },
                            _ => {},
                        }
                    },
                    None => {},
                }
                i += 1;
            }
        },
        None => {},
    }
    true
}

} // verus!
