//! Fuzzy matching of a typed query against item display names.
//!
//! The score itself comes from the `nucleo_matcher` crate (smart-case,
//! normalizing, subsequence matching); this module gives that score a
//! name and applies it to a whole catalog in one verified pass.

use vstd::prelude::*;
use crate::model::{Entry, same_except_score};

verus! {

/// Score that `nucleo_matcher` assigns to `name` under `query` with the
/// default configuration: `None` when the query is no fuzzy subsequence
/// match, `Some(score)` otherwise. A pure function of the two strings.
pub uninterp spec fn fuzzy_score_of(query: Seq<char>, name: Seq<char>) -> Option<u32>;

/// The ranking pass stores this value in `Entry::score` before any
/// history boost: the fuzzy score itself, or `-1` for a non-match.
pub open spec fn base_score(query: Seq<char>, name: Seq<char>) -> int {
    match fuzzy_score_of(query, name) {
        Some(s) => s as int,
        None => -1,
    }
}

/// Relies on `nucleo_matcher::pattern::Pattern::parse` (smart case, smart
/// normalization) and `Pattern::score` with `Config::DEFAULT`: the
/// resulting score depends on the query and the haystack alone.
#[verifier::external_body]
fn nucleo_score(query: &str, name: &str) -> (r: Option<u32>)
    ensures
        r == fuzzy_score_of(query@, name@),
{
    let mut matcher = nucleo_matcher::Matcher::new(nucleo_matcher::Config::DEFAULT);
    let pattern = nucleo_matcher::pattern::Pattern::parse(
        query,
        nucleo_matcher::pattern::CaseMatching::Smart,
        nucleo_matcher::pattern::Normalization::Smart,
    );
    let mut buf = Vec::new();
    pattern.score(nucleo_matcher::Utf32Str::new(name, &mut buf), &mut matcher)
}

/// Scores catalog entries against the current query.
pub struct FuzzyMatcher {}

impl FuzzyMatcher {
    /// A matcher with the default configuration.
    pub fn new() -> (r: FuzzyMatcher) {
        FuzzyMatcher {  }
    }

    /// Writes the fuzzy score of every entry's display name into its
    /// `score` field: the match score, or `-1` when the query does not
    /// match. No other field changes.
    pub fn match_entries(&mut self, query: &str, entries: &mut Vec<Entry>)
        ensures
            final(entries)@.len() == old(entries)@.len(),
            forall|k: int|
                0 <= k < old(entries)@.len() ==> same_except_score(
                    #[trigger] final(entries)@[k],
                    old(entries)@[k],
                ) && final(entries)@[k].score == base_score(query@, old(entries)@[k].name@),
    {
        let n = entries.len();
        let mut i: usize = 0;
        while i < n
            invariant
                n == entries@.len(),
                i <= n,
                forall|k: int|
                    0 <= k < i ==> same_except_score(#[trigger] entries@[k], old(entries)@[k])
                        && entries@[k].score == base_score(query@, old(entries)@[k].name@),
                forall|k: int| i <= k < n ==> entries@[k] == old(entries)@[k],
            decreases n - i,
        {
            let s = nucleo_score(query, entries[i].name.as_str());
            let sc: i64 = match s {
                Some(v) => v as i64,
                None => -1,
            };
            let updated = entries[i].with_score(sc);
            entries[i] = updated;
            i += 1;
        }
    }
}

impl Default for FuzzyMatcher {
    /// Same as [`FuzzyMatcher::new`].
    fn default() -> (r: FuzzyMatcher) {
        FuzzyMatcher {  }
    }
}

} // verus!
