//! The ranking and filter engine: catalog, query, derived filtered view
//! and selection cursor.
//!
//! The filtered view is a list of catalog indices, fully recomputed from
//! the current (query, catalog, history, policy) tuple on every query or
//! catalog change; the renderer never sees a stale intermediate state.

use vstd::prelude::*;
use crate::config::{Config, LaunchGroup, find_group, find_group_in};
use crate::history::{History, count_in};
use crate::matcher::{FuzzyMatcher, fuzzy_score_of};
use crate::model::{Entry, same_except_score};
use crate::policy::{
    entry_passes,
    lemma_whitelist_dominates,
    passes_policy,
    passes_whitelist,
};
use crate::rank::{
    bounded_seq,
    distinct_seq,
    history_lt,
    score_lt,
    sort_by_history,
    sort_by_score,
};

verus! {

/// The interactive core's mutable state.
pub struct AppState {
    /// Configuration, immutable for the session.
    pub config: Config,
    /// The catalog of selectable items.
    pub entries: Vec<Entry>,
    /// The filtered view: catalog indices in rank order.
    pub filtered_indices: Vec<usize>,
    /// Selection cursor into the filtered view.
    pub selected_index: usize,
    /// The typed query.
    pub query: String,
    /// Fuzzy matcher for the ranking pass.
    pub matcher: FuzzyMatcher,
    /// Name of the launch group in effect.
    pub active_group: String,
    /// Usage history used for ranking boosts.
    pub history: History,
}

/// The group reference handed to the pruning pass, as a spec value.
pub open spec fn opt_group(gc: Option<&LaunchGroup>) -> Option<LaunchGroup> {
    match gc {
        Some(g) => Some(*g),
        None => None,
    }
}

/// Score the ranking pass assigns to `e` under `query`: `-1` for a
/// non-match, the fuzzy score for a match, plus one hundred times the
/// usage count when the fuzzy score is positive.
pub open spec fn boosted_score(query: Seq<char>, hist: History, e: Entry) -> int {
    match fuzzy_score_of(query, e.name@) {
        None => -1,
        Some(s) => if s > 0 {
            s + 100 * count_in(hist.usage_counts@, e.id@)
        } else {
            s as int
        },
    }
}

impl AppState {
    /// Usage counts of the catalog entries, in catalog order.
    pub open spec fn usage_counts_seq(self) -> Seq<u32> {
        Seq::new(
            self.entries@.len(),
            |k: int| count_in(self.history.usage_counts@, self.entries@[k].id@),
        )
    }

    /// The launch group policy in effect, if the active group exists.
    pub open spec fn active_policy(self) -> Option<LaunchGroup> {
        find_group_in(self.config.groups@, self.active_group@)
    }

    /// Catalog index `idx` belongs in the filtered view: it is in range,
    /// positively scored when a query is typed, and kept by the policy.
    pub open spec fn kept(self, idx: int) -> bool {
        &&& 0 <= idx < self.entries@.len()
        &&& (self.query@.len() > 0 ==> self.entries@[idx].score > 0)
        &&& passes_policy(self.active_policy(), self.entries@[idx])
    }

    /// The filtered view holds exactly the kept indices, in rank order,
    /// and the cursor is inside the view (or zero when it is empty).
    pub open spec fn wf(self) -> bool {
        &&& bounded_seq(self.filtered_indices@, self.entries@.len() as int)
        &&& distinct_seq(self.filtered_indices@)
        &&& if self.filtered_indices@.len() > 0 {
            self.selected_index < self.filtered_indices@.len()
        } else {
            self.selected_index == 0
        }
    }

    /// A fresh engine: empty catalog, empty view, empty query, cursor at
    /// zero, group `default`, with the given configuration and history.
    pub fn new(config: Config, history: History) -> (r: AppState)
        ensures
            r.config == config,
            r.entries@.len() == 0,
            r.filtered_indices@.len() == 0,
            r.selected_index == 0,
            r.query@.len() == 0,
            r.active_group@ == "default"@,
            r.history == history,
            r.wf(),
    {
        AppState {
            config,
            entries: Vec::new(),
            filtered_indices: Vec::new(),
            selected_index: 0,
            query: String::new(),
            matcher: FuzzyMatcher::new(),
            active_group: String::from_str("default"),
            history,
        }
    }

    /// Replaces the catalog, recomputes the view, resets the cursor.
    pub fn set_entries(&mut self, entries: Vec<Entry>)
        ensures
            ranked_from(
                AppState { entries: entries, ..*old(self) },
                *final(self),
            ),
    {
        self.entries = entries;
        self.update_filter();
    }

    /// Replaces the query, recomputes the view, resets the cursor.
    pub fn update_query(&mut self, query: &str)
        ensures
            final(self).query@ == query@,
            ranked_from(
                AppState { query: final(self).query, ..*old(self) },
                *final(self),
            ),
    {
        self.query = query.to_owned();
        self.update_filter();
    }

    /// Recomputes the filtered view from the current query, catalog,
    /// history and group policy, and resets the cursor.
    ///
    /// With an empty query, all catalog indices are ordered by usage
    /// count descending, then name ascending, then catalog position.
    /// Otherwise every display name is scored against the query,
    /// positively scored entries are boosted by their usage count and
    /// ordered by score descending, then catalog position. In both cases
    /// the group policy then prunes the view, whitelist before
    /// blacklist, without reordering it.
    pub fn update_filter(&mut self)
        ensures
            ranked_from(*old(self), *final(self)),
    {
        let ghost pre = *self;
        let n = self.entries.len();
        if self.query.as_str().is_empty() {
            let mut counts: Vec<u32> = Vec::new();
            let mut k: usize = 0;
            while k < n
                invariant
                    n == self.entries@.len(),
                    k <= n,
                    counts@.len() == k,
                    *self == pre,
                    forall|j: int|
                        0 <= j < k ==> counts@[j] == count_in(
                            self.history.usage_counts@,
                            self.entries@[j].id@,
                        ),
                decreases n - k,
            {
                let c = self.history.get_count(self.entries[k].id.as_str());
                counts.push(c);
                k += 1;
            }
            proof {
                assert(counts@ =~= self.usage_counts_seq());
            }
            let mut idxs: Vec<usize> = Vec::new();
            let mut k: usize = 0;
            while k < n
                invariant
                    k <= n,
                    idxs@.len() == k,
                    forall|j: int| 0 <= j < k ==> idxs@[j] == j,
                decreases n - k,
            {
                idxs.push(k);
                k += 1;
            }
            proof {
                assert forall|x: usize| idxs@.contains(x) <==> (x as int) < n as int by {
                    if (x as int) < n as int {
                        assert(idxs@[x as int] == x);
                    }
                }
            }
            sort_by_history(&mut idxs, &self.entries, &counts);
            let gc = find_group(&self.config.groups, self.active_group.as_str());
            let kept_view = prune(
                &idxs,
                &self.entries,
                gc,
                Ghost(
                    |a: int, b: int| history_lt(pre.entries@, pre.usage_counts_seq(), a, b),
                ),
            );
            self.filtered_indices = kept_view;
            self.selected_index = 0;
        } else {
            self.matcher.match_entries(self.query.as_str(), &mut self.entries);
            let ghost mid = self.entries@;
            let mut k: usize = 0;
            while k < n
                invariant
                    n == self.entries@.len(),
                    n == mid.len(),
                    n == pre.entries@.len(),
                    k <= n,
                    self.history == pre.history,
                    self.query == pre.query,
                    self.config == pre.config,
                    self.active_group == pre.active_group,
                    self.filtered_indices == pre.filtered_indices,
                    self.selected_index == pre.selected_index,
                    forall|j: int|
                        0 <= j < n ==> same_except_score(#[trigger] mid[j], pre.entries@[j])
                            && mid[j].score == crate::matcher::base_score(
                            pre.query@,
                            pre.entries@[j].name@,
                        ),
                    forall|j: int|
                        k <= j < n ==> self.entries@[j] == mid[j],
                    forall|j: int|
                        0 <= j < k ==> same_except_score(#[trigger] self.entries@[j], pre.entries@[j])
                            && self.entries@[j].score == boosted_score(
                            pre.query@,
                            pre.history,
                            pre.entries@[j],
                        ),
                decreases n - k,
            {
                proof {
                    assert(self.entries@[k as int] == mid[k as int]);
                }
                if self.entries[k].score > 0 {
                    proof {
                        assert(mid[k as int].score == crate::matcher::base_score(
                            pre.query@,
                            pre.entries@[k as int].name@,
                        ));
                        assert(fuzzy_score_of(pre.query@, pre.entries@[k as int].name@) is Some);
                        assert(self.entries@[k as int].score <= u32::MAX);
                    }
                    let c = self.history.get_count(self.entries[k].id.as_str());
                    let boosted = self.entries[k].score + (c as i64) * 100;
                    let updated = self.entries[k].with_score(boosted);
                    self.entries[k] = updated;
                }
                k += 1;
            }
            let mut idxs: Vec<usize> = Vec::new();
            let mut k: usize = 0;
            while k < n
                invariant
                    n == self.entries@.len(),
                    k <= n,
                    bounded_seq(idxs@, n as int),
                    forall|p: int, q: int| 0 <= p < q < idxs@.len() ==> idxs@[p] < idxs@[q],
                    forall|p: int| 0 <= p < idxs@.len() ==> idxs@[p] < k,
                    forall|x: usize|
                        idxs@.contains(x) <==> (x as int) < k as int && self.entries@[x as int].score
                            > 0,
                decreases n - k,
            {
                if self.entries[k].score > 0 {
                    proof {
                        broadcast use vstd::seq_lib::lemma_seq_contains_after_push;

                        assert forall|p: int| 0 <= p < idxs@.len() implies idxs@[p] != k by {
                            assert(idxs@.contains(idxs@[p]));
                        }
                    }
                    idxs.push(k);
                } else {
                    proof {
                        assert forall|x: usize|
                            idxs@.contains(x) <==> (x as int) < k as int + 1
                                && self.entries@[x as int].score > 0 by {}
                    }
                }
                k += 1;
            }
            proof {
                assert(distinct_seq(idxs@));
            }
            sort_by_score(&mut idxs, &self.entries);
            let ghost post_entries = self.entries@;
            let gc = find_group(&self.config.groups, self.active_group.as_str());
            let kept_view = prune(
                &idxs,
                &self.entries,
                gc,
                Ghost(|a: int, b: int| score_lt(post_entries, a, b)),
            );
            self.filtered_indices = kept_view;
            self.selected_index = 0;
            proof {
                lemma_positive_fuzzy(*self, pre);
            }
        }
    }

    /// Cyclic cursor move by `delta`: on an empty view the cursor stays
    /// zero; otherwise it wraps with floored modulo semantics, so a
    /// negative delta wraps to the tail.
    pub fn move_selection(&mut self, delta: i32)
        requires
            old(self).wf(),
        ensures
            (*final(self) == AppState {
                selected_index: final(self).selected_index,
                ..*old(self)
            }),
            final(self).filtered_indices@.len() == 0 ==> final(self).selected_index == 0,
            final(self).filtered_indices@.len() > 0 ==> final(self).selected_index as int == (
            old(self).selected_index + delta) % (old(self).filtered_indices@.len() as int),
            final(self).wf(),
    {
        let len = self.filtered_indices.len();
        if len == 0 {
            self.selected_index = 0;
            return;
        }
        let s = self.selected_index;
        let ghost li = len as int;
        let ghost si = s as int;
        let ghost di = delta as int;
        if delta >= 0 {
            let step = (delta as usize) % len;
            let r = if step >= len - s {
                step - (len - s)
            } else {
                s + step
            };
            proof {
                vstd::arithmetic::div_mod::lemma_fundamental_div_mod(di, li);
                let qd = di / li;
                assert(step as int == di % li);
                if step >= len - s {
                    assert(si + di == (qd + 1) * li + (si + (step as int) - li))
                        by (nonlinear_arith)
                        requires
                            di == li * qd + (step as int),
                    ;
                    vstd::arithmetic::div_mod::lemma_fundamental_div_mod_converse(
                        si + di,
                        li,
                        qd + 1,
                        si + step - li,
                    );
                } else {
                    assert(si + di == qd * li + (si + (step as int))) by (nonlinear_arith)
                        requires
                            di == li * qd + (step as int),
                    ;
                    vstd::arithmetic::div_mod::lemma_fundamental_div_mod_converse(
                        si + di,
                        li,
                        qd,
                        si + step,
                    );
                }
            }
            self.selected_index = r;
        } else {
            let mag_wide: i64 = -(delta as i64);
            let mag: usize = mag_wide as usize;
            let step = mag % len;
            proof {
                let mi = mag as int;
                vstd::arithmetic::div_mod::lemma_fundamental_div_mod(mi, li);
                let qm = mi / li;
                assert(step as int == mi % li);
                assert(di == -mi);
                if step > s {
                    assert(si + di == (-qm - 1) * li + (si - (step as int) + li))
                        by (nonlinear_arith)
                        requires
                            di == -mi,
                            mi == li * qm + (step as int),
                    ;
                    vstd::arithmetic::div_mod::lemma_fundamental_div_mod_converse(
                        si + di,
                        li,
                        -qm - 1,
                        si - step + li,
                    );
                } else {
                    assert(si + di == (-qm) * li + (si - (step as int))) by (nonlinear_arith)
                        requires
                            di == -mi,
                            mi == li * qm + (step as int),
                    ;
                    vstd::arithmetic::div_mod::lemma_fundamental_div_mod_converse(
                        si + di,
                        li,
                        -qm,
                        si - step,
                    );
                }
            }
            let r = if step > s {
                len - (step - s)
            } else {
                s - step
            };
            self.selected_index = r;
        }
    }

    /// The item under the cursor, or nothing when the view is empty.
    pub fn get_selected(&self) -> (r: Option<&Entry>)
        requires
            self.wf(),
        ensures
            match r {
                Some(e) => self.filtered_indices@.len() > 0 && *e == self.entries@[
                    self.filtered_indices@[self.selected_index as int] as int
                ],
                None => self.filtered_indices@.len() == 0,
            },
    {
        if self.selected_index < self.filtered_indices.len() {
            let idx = self.filtered_indices[self.selected_index];
            Some(&self.entries[idx])
        } else {
            None
        }
    }
}

/// `post` is the state the ranking pass produces from `pre`: the same
/// configuration, query, group and history; scores recomputed when a
/// query is typed; the view holding exactly the kept indices in rank
/// order; and the cursor reset to zero.
pub open spec fn ranked_from(pre: AppState, post: AppState) -> bool {
    let q = pre.query@;
    let f = post.filtered_indices@;
    &&& post.query == pre.query
    &&& post.config == pre.config
    &&& post.active_group == pre.active_group
    &&& post.history == pre.history
    &&& post.selected_index == 0
    &&& post.entries@.len() == pre.entries@.len()
    &&& (q.len() == 0 ==> post.entries == pre.entries)
    &&& (q.len() > 0 ==> forall|k: int|
        0 <= k < pre.entries@.len() ==> same_except_score(
            #[trigger] post.entries@[k],
            pre.entries@[k],
        ) && post.entries@[k].score == boosted_score(q, pre.history, pre.entries@[k]))
    &&& (q.len() == 0 ==> forall|i: int, j: int|
        0 <= i < j < f.len() ==> history_lt(
            post.entries@,
            post.usage_counts_seq(),
            f[i] as int,
            f[j] as int,
        ))
    &&& (q.len() > 0 ==> forall|i: int, j: int|
        0 <= i < j < f.len() ==> score_lt(post.entries@, f[i] as int, f[j] as int))
    &&& (forall|x: usize| f.contains(x) <==> post.kept(x as int))
    &&& (q.len() > 0 ==> forall|k: int|
        0 <= k < f.len() ==> fuzzy_score_of(q, post.entries@[f[k] as int].name@) is Some
            && fuzzy_score_of(q, post.entries@[f[k] as int].name@)->Some_0 > 0)
    &&& post.wf()
}

/// Whitelist pruning comes strictly before blacklist pruning: an item
/// that fails the active group's whitelist never appears in the
/// filtered view, even when the blacklist would keep it.
pub proof fn lemma_whitelist_never_shown(pre: AppState, post: AppState, idx: usize)
    requires
        ranked_from(pre, post),
        post.active_policy() is Some,
        idx < post.entries@.len(),
        !passes_whitelist(post.active_policy()->Some_0, post.entries@[idx as int]),
    ensures
        !post.filtered_indices@.contains(idx),
{
    lemma_whitelist_dominates(post.active_policy()->Some_0, post.entries@[idx as int]);
}

/// Every view entry of a ranked state has a positive fuzzy score.
proof fn lemma_positive_fuzzy(post: AppState, pre: AppState)
    requires
        pre.query@.len() > 0,
        post.query == pre.query,
        bounded_seq(post.filtered_indices@, post.entries@.len() as int),
        forall|x: usize|
            post.filtered_indices@.contains(x) ==> post.entries@[x as int].score > 0,
        forall|k: int|
            0 <= k < pre.entries@.len() ==> post.entries@[k].score == boosted_score(
                pre.query@,
                pre.history,
                pre.entries@[k],
            ) && same_except_score(#[trigger] post.entries@[k], pre.entries@[k]),
        post.entries@.len() == pre.entries@.len(),
    ensures
        forall|k: int|
            0 <= k < post.filtered_indices@.len() ==> fuzzy_score_of(
                pre.query@,
                post.entries@[post.filtered_indices@[k] as int].name@,
            ) is Some && fuzzy_score_of(
                pre.query@,
                post.entries@[post.filtered_indices@[k] as int].name@,
            )->Some_0 > 0,
{
    assert forall|k: int| 0 <= k < post.filtered_indices@.len() implies fuzzy_score_of(
        pre.query@,
        post.entries@[post.filtered_indices@[k] as int].name@,
    ) is Some && fuzzy_score_of(
        pre.query@,
        post.entries@[post.filtered_indices@[k] as int].name@,
    )->Some_0 > 0 by {
        let idx = post.filtered_indices@[k] as int;
        assert(post.filtered_indices@.contains(post.filtered_indices@[k]));
        assert(post.entries@[idx].score > 0);
        assert(post.entries@[idx].name@ == pre.entries@[idx].name@);
    }
}

/// Keeps, in order, the sorted indices that the group policy accepts.
fn prune(
    v: &Vec<usize>,
    entries: &Vec<Entry>,
    gc: Option<&LaunchGroup>,
    Ghost(lt): Ghost<spec_fn(int, int) -> bool>,
) -> (r: Vec<usize>)
    requires
        bounded_seq(v@, entries@.len() as int),
        distinct_seq(v@),
        forall|i: int, j: int| 0 <= i < j < v@.len() ==> lt(v@[i] as int, v@[j] as int),
    ensures
        bounded_seq(r@, entries@.len() as int),
        distinct_seq(r@),
        forall|i: int, j: int| 0 <= i < j < r@.len() ==> lt(r@[i] as int, r@[j] as int),
        forall|x: usize|
            r@.contains(x) <==> v@.contains(x) && passes_policy(
                opt_group(gc),
                entries@[x as int],
            ),
{
    let n = v.len();
    let mut out: Vec<usize> = Vec::new();
    let mut i: usize = 0;
    while i < n
        invariant
            n == v@.len(),
            i <= n,
            bounded_seq(v@, entries@.len() as int),
            distinct_seq(v@),
            forall|p: int, q: int| 0 <= p < q < v@.len() ==> lt(v@[p] as int, v@[q] as int),
            bounded_seq(out@, entries@.len() as int),
            distinct_seq(out@),
            forall|p: int, q: int| 0 <= p < q < out@.len() ==> lt(out@[p] as int, out@[q] as int),
            forall|p: int, j: int|
                0 <= p < out@.len() && i <= j < n ==> lt(out@[p] as int, v@[j] as int),
            forall|x: usize|
                out@.contains(x) <==> exists|j: int|
                    0 <= j < i && v@[j] == x && passes_policy(opt_group(gc), entries@[x as int]),
            gc is Some <==> opt_group(gc) is Some,
            gc is Some ==> *gc->Some_0 == opt_group(gc)->Some_0,
        decreases n - i,
    {
        let idx = v[i];
        let keep = match gc {
            Some(g) => entry_passes(g, &entries[idx]),
            None => true,
        };
        if keep {
            proof {
                broadcast use vstd::seq_lib::lemma_seq_contains_after_push;

                if out@.contains(idx) {
                    let j = choose|j: int|
                        0 <= j < i && v@[j] == idx && passes_policy(
                            opt_group(gc),
                            entries@[idx as int],
                        );
                    assert(v@[j] == v@[i as int]);
                    assert(false);
                }
                assert forall|x: usize|
                    out@.push(idx).contains(x) implies exists|j: int|
                    0 <= j < i + 1 && v@[j] == x && passes_policy(
                        opt_group(gc),
                        entries@[x as int],
                    ) by {
                    if x == idx {
                        assert(v@[i as int] == x);
                    }
                }
                assert forall|x: usize|
                    (exists|j: int|
                        0 <= j < i + 1 && v@[j] == x && passes_policy(
                            opt_group(gc),
                            entries@[x as int],
                        )) implies out@.push(idx).contains(x) by {
                    let j = choose|j: int|
                        0 <= j < i + 1 && v@[j] == x && passes_policy(
                            opt_group(gc),
                            entries@[x as int],
                        );
                    if j == i as int {
                        assert(out@.push(idx)[out@.len() as int] == idx);
                    } else {
                        assert(out@.contains(x));
                    }
                }
            }
            out.push(idx);
        } else {
            proof {
                assert forall|x: usize|
                    out@.contains(x) <==> exists|j: int|
                        0 <= j < i + 1 && v@[j] == x && passes_policy(
                            opt_group(gc),
                            entries@[x as int],
                        ) by {
                    if x == idx {
                        assert(!passes_policy(opt_group(gc), entries@[x as int]));
                    }
                }
            }
        }
        i += 1;
    }
    proof {
        assert forall|x: usize|
            out@.contains(x) <==> v@.contains(x) && passes_policy(
                opt_group(gc),
                entries@[x as int],
            ) by {
            if v@.contains(x) && passes_policy(opt_group(gc), entries@[x as int]) {
                let j = choose|j: int| 0 <= j < v@.len() && v@[j] == x;
                assert(0 <= j < n && v@[j] == x);
            }
        }
    }
    out
}

} // verus!
