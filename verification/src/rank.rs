//! Ranking orders over catalog indices, and verified sorting.
//!
//! With an empty query the view is ordered by usage count descending,
//! then display name ascending, then catalog position; with a query it
//! is ordered by score descending, then catalog position. Both are
//! strict total orders on distinct catalog indices, so the sorted view
//! is unique.

use vstd::prelude::*;
use crate::model::Entry;
use crate::text::{lex_lt, str_lt, lemma_lex_asym, lemma_lex_connected, lemma_lex_trans};

verus! {

/// No element occurs twice.
pub open spec fn distinct_seq(s: Seq<usize>) -> bool {
    forall|i: int, j: int| 0 <= i < j < s.len() ==> s[i] != s[j]
}

/// Every element indexes into a catalog of length `n`.
pub open spec fn bounded_seq(s: Seq<usize>, n: int) -> bool {
    forall|i: int| 0 <= i < s.len() ==> s[i] < n
}

/// Empty-query order: catalog index `a` ranks before `b` when its usage
/// count is higher, or its display name is smaller in code-point order,
/// or it comes first in the catalog.
pub open spec fn history_lt(entries: Seq<Entry>, counts: Seq<u32>, a: int, b: int) -> bool {
    ||| counts[b] < counts[a]
    ||| (counts[a] == counts[b] && lex_lt(entries[a].name@, entries[b].name@))
    ||| (counts[a] == counts[b] && entries[a].name@ == entries[b].name@ && a < b)
}

/// Query order: catalog index `a` ranks before `b` when its score is
/// higher, or it comes first in the catalog.
pub open spec fn score_lt(entries: Seq<Entry>, a: int, b: int) -> bool {
    ||| entries[b].score < entries[a].score
    ||| (entries[a].score == entries[b].score && a < b)
}

/// The empty-query order relates every pair of distinct indices.
proof fn lemma_history_lt_connected(entries: Seq<Entry>, counts: Seq<u32>, a: int, b: int)
    requires
        a != b,
    ensures
        history_lt(entries, counts, a, b) || history_lt(entries, counts, b, a),
{
    if counts[a] == counts[b] {
        if !lex_lt(entries[a].name@, entries[b].name@) && !lex_lt(
            entries[b].name@,
            entries[a].name@,
        ) {
            lemma_lex_connected(entries[a].name@, entries[b].name@);
        }
    }
}

/// The empty-query order is transitive.
proof fn lemma_history_lt_trans(entries: Seq<Entry>, counts: Seq<u32>, a: int, b: int, c: int)
    requires
        history_lt(entries, counts, a, b),
        history_lt(entries, counts, b, c),
    ensures
        history_lt(entries, counts, a, c),
{
    if counts[a] == counts[b] && counts[b] == counts[c] {
        let na = entries[a].name@;
        let nb = entries[b].name@;
        let nc = entries[c].name@;
        if lex_lt(na, nb) && lex_lt(nb, nc) {
            lemma_lex_trans(na, nb, nc);
        } else if lex_lt(na, nb) && nb == nc {
            assert(lex_lt(na, nc));
        } else if na == nb && lex_lt(nb, nc) {
            assert(lex_lt(na, nc));
        }
    }
}

/// Removes position `i` from a distinct sequence by swapping in the last
/// element: the result keeps exactly the other elements, still distinct.
proof fn lemma_swap_remove(s: Seq<usize>, i: int)
    requires
        distinct_seq(s),
        0 <= i < s.len(),
    ensures
        ({
            let s2 = s.update(i, s[s.len() - 1]).drop_last();
            &&& s2.len() == s.len() - 1
            &&& distinct_seq(s2)
            &&& forall|x: usize| s2.contains(x) <==> (s.contains(x) && x != s[i])
        }),
{
    let n = s.len() as int;
    let s2 = s.update(i, s[n - 1]).drop_last();
    assert forall|x: usize| s2.contains(x) implies (s.contains(x) && x != s[i]) by {
        let k = choose|k: int| 0 <= k < s2.len() && s2[k] == x;
        if k == i && i < n - 1 {
            assert(s[n - 1] == x);
        } else {
            assert(s[k] == x);
        }
    }
    assert forall|x: usize| s.contains(x) && x != s[i] implies s2.contains(x) by {
        let p = choose|p: int| 0 <= p < s.len() && s[p] == x;
        if p == n - 1 {
            assert(s2[i] == x);
        } else {
            assert(s2[p] == x);
        }
    }
}

/// Runtime test of [`history_lt`].
fn hist_before(entries: &Vec<Entry>, counts: &Vec<u32>, a: usize, b: usize) -> (r: bool)
    requires
        counts@.len() == entries@.len(),
        a < entries@.len(),
        b < entries@.len(),
        a != b,
    ensures
        r == history_lt(entries@, counts@, a as int, b as int),
{
    if counts[b] < counts[a] {
        true
    } else if counts[a] < counts[b] {
        false
    } else {
        let na = entries[a].name.as_str();
        let nb = entries[b].name.as_str();
        if str_lt(na, nb) {
            true
        } else if str_lt(nb, na) {
            proof {
                lemma_lex_asym(entries@[a as int].name@, entries@[b as int].name@);
            }
            false
        } else {
            proof {
                lemma_lex_connected(entries@[a as int].name@, entries@[b as int].name@);
            }
            a < b
        }
    }
}

/// Runtime test of [`score_lt`].
fn score_before(entries: &Vec<Entry>, a: usize, b: usize) -> (r: bool)
    requires
        a < entries@.len(),
        b < entries@.len(),
    ensures
        r == score_lt(entries@, a as int, b as int),
{
    if entries[b].score < entries[a].score {
        true
    } else if entries[a].score < entries[b].score {
        false
    } else {
        a < b
    }
}

/// Sorts catalog indices by the empty-query order.
pub fn sort_by_history(v: &mut Vec<usize>, entries: &Vec<Entry>, counts: &Vec<u32>)
    requires
        counts@.len() == entries@.len(),
        bounded_seq(old(v)@, entries@.len() as int),
        distinct_seq(old(v)@),
    ensures
        final(v)@.len() == old(v)@.len(),
        bounded_seq(final(v)@, entries@.len() as int),
        distinct_seq(final(v)@),
        forall|x: usize| final(v)@.contains(x) <==> old(v)@.contains(x),
        forall|i: int, j: int|
            0 <= i < j < final(v)@.len() ==> history_lt(
                entries@,
                counts@,
                final(v)@[i] as int,
                final(v)@[j] as int,
            ),
{
    let ghost orig = v@;
    let mut out: Vec<usize> = Vec::new();
    while v.len() > 0
        invariant
            counts@.len() == entries@.len(),
            bounded_seq(v@, entries@.len() as int),
            bounded_seq(out@, entries@.len() as int),
            distinct_seq(v@),
            distinct_seq(out@),
            out@.len() + v@.len() == orig.len(),
            forall|x: usize| orig.contains(x) <==> (out@.contains(x) || v@.contains(x)),
            forall|x: usize| out@.contains(x) ==> !v@.contains(x),
            forall|x: usize| out@.contains(x) || v@.contains(x) ==> orig.contains(x),
            forall|i: int, j: int|
                0 <= i < j < out@.len() ==> history_lt(
                    entries@,
                    counts@,
                    out@[i] as int,
                    out@[j] as int,
                ),
            forall|i: int, j: int|
                0 <= i < out@.len() && 0 <= j < v@.len() ==> history_lt(
                    entries@,
                    counts@,
                    out@[i] as int,
                    v@[j] as int,
                ),
        decreases v@.len(),
    {
        let mut m: usize = 0;
        let mut j: usize = 1;
        while j < v.len()
            invariant
                counts@.len() == entries@.len(),
                bounded_seq(v@, entries@.len() as int),
                distinct_seq(v@),
                v@.len() > 0,
                m < j,
                j <= v@.len(),
                forall|k: int|
                    0 <= k < j && k != m ==> history_lt(
                        entries@,
                        counts@,
                        v@[m as int] as int,
                        v@[k] as int,
                    ),
            decreases v@.len() - j,
        {
            if hist_before(entries, counts, v[j], v[m]) {
                proof {
                    assert forall|k: int|
                        0 <= k < j + 1 && k != j implies history_lt(
                        entries@,
                        counts@,
                        v@[j as int] as int,
                        v@[k] as int,
                    ) by {
                        if k != m {
                            lemma_history_lt_trans(
                                entries@,
                                counts@,
                                v@[j as int] as int,
                                v@[m as int] as int,
                                v@[k] as int,
                            );
                        }
                    }
                }
                m = j;
            } else {
                proof {
                    lemma_history_lt_connected(
                        entries@,
                        counts@,
                        v@[m as int] as int,
                        v@[j as int] as int,
                    );
                }
            }
            j += 1;
        }
        let picked = v[m];
        proof {
            broadcast use vstd::seq_lib::lemma_seq_contains_after_push;

            lemma_swap_remove(v@, m as int);
            assert(v@.contains(picked));
            assert forall|i: int| 0 <= i < out@.len() implies out@[i] != picked by {
                assert(out@.contains(out@[i]));
            }
        }
        out.push(picked);
        v.swap_remove(m);
    }
    *v = out;
}

/// Sorts catalog indices by the query order.
pub fn sort_by_score(v: &mut Vec<usize>, entries: &Vec<Entry>)
    requires
        bounded_seq(old(v)@, entries@.len() as int),
        distinct_seq(old(v)@),
    ensures
        final(v)@.len() == old(v)@.len(),
        bounded_seq(final(v)@, entries@.len() as int),
        distinct_seq(final(v)@),
        forall|x: usize| final(v)@.contains(x) <==> old(v)@.contains(x),
        forall|i: int, j: int|
            0 <= i < j < final(v)@.len() ==> score_lt(
                entries@,
                final(v)@[i] as int,
                final(v)@[j] as int,
            ),
{
    let ghost orig = v@;
    let mut out: Vec<usize> = Vec::new();
    while v.len() > 0
        invariant
            bounded_seq(v@, entries@.len() as int),
            bounded_seq(out@, entries@.len() as int),
            distinct_seq(v@),
            distinct_seq(out@),
            out@.len() + v@.len() == orig.len(),
            forall|x: usize| orig.contains(x) <==> (out@.contains(x) || v@.contains(x)),
            forall|x: usize| out@.contains(x) ==> !v@.contains(x),
            forall|x: usize| out@.contains(x) || v@.contains(x) ==> orig.contains(x),
            forall|i: int, j: int|
                0 <= i < j < out@.len() ==> score_lt(entries@, out@[i] as int, out@[j] as int),
            forall|i: int, j: int|
                0 <= i < out@.len() && 0 <= j < v@.len() ==> score_lt(
                    entries@,
                    out@[i] as int,
                    v@[j] as int,
                ),
        decreases v@.len(),
    {
        let mut m: usize = 0;
        let mut j: usize = 1;
        while j < v.len()
            invariant
                bounded_seq(v@, entries@.len() as int),
                distinct_seq(v@),
                v@.len() > 0,
                m < j,
                j <= v@.len(),
                forall|k: int|
                    0 <= k < j && k != m ==> score_lt(entries@, v@[m as int] as int, v@[k] as int),
            decreases v@.len() - j,
        {
            if score_before(entries, v[j], v[m]) {
                m = j;
            }
            j += 1;
        }
        let picked = v[m];
        proof {
            broadcast use vstd::seq_lib::lemma_seq_contains_after_push;

            lemma_swap_remove(v@, m as int);
            assert(v@.contains(picked));
            assert forall|i: int| 0 <= i < out@.len() implies out@[i] != picked by {
                assert(out@.contains(out@[i]));
            }
        }
        out.push(picked);
        v.swap_remove(m);
    }
    *v = out;
}

} // verus!
