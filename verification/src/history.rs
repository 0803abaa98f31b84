//! Usage history: a persisted per-item execution counter used to boost
//! the ranking of frequently used items.
//!
//! The store itself is a plain association list; loading it from and
//! saving it to disk is the surrounding session's job.

use vstd::prelude::*;
use crate::text::str_eq;

verus! {

/// Mapping from item id to the number of times the item was executed.
pub struct History {
    /// One `(id, count)` pair per item ever executed.
    pub usage_counts: Vec<(String, u32)>,
}

/// Usage count recorded for `id` in `counts`: the first binding wins,
/// and an absent id counts as zero.
pub open spec fn count_in(counts: Seq<(String, u32)>, id: Seq<char>) -> u32
    decreases counts.len(),
{
    if counts.len() == 0 {
        0
    } else if counts[0].0@ == id {
        counts[0].1
    } else {
        count_in(counts.drop_first(), id)
    }
}

/// `id` has a binding in `counts`.
pub open spec fn has_binding(counts: Seq<(String, u32)>, id: Seq<char>) -> bool {
    exists|k: int| 0 <= k < counts.len() && counts[k].0@ == id
}

proof fn lemma_count_in_step(counts: Seq<(String, u32)>, id: Seq<char>, i: int)
    requires
        0 <= i < counts.len(),
        forall|k: int| 0 <= k < i ==> counts[k].0@ != id,
    ensures
        counts[i].0@ == id ==> count_in(counts, id) == counts[i].1,
        (forall|k: int| 0 <= k <= i ==> counts[k].0@ != id) && i == counts.len() - 1
            ==> count_in(counts, id) == 0,
    decreases i,
{
    if i == 0 {
        if counts[0].0@ != id && counts.len() == 1 {
            assert(count_in(counts.drop_first(), id) == 0);
        }
    } else {
        assert(counts.drop_first()[i - 1] == counts[i]);
        assert(forall|k: int|
            0 <= k < i - 1 ==> counts.drop_first()[k] == counts[k + 1]);
        lemma_count_in_step(counts.drop_first(), id, i - 1);
    }
}

impl History {
    /// Usage count of `id`, zero when the id was never executed.
    pub open spec fn spec_count(&self, id: Seq<char>) -> u32 {
        count_in(self.usage_counts@, id)
    }

    /// An empty history: every item counts as never executed.
    pub fn new() -> (r: History)
        ensures
            r.usage_counts@.len() == 0,
            forall|id: Seq<char>| r.spec_count(id) == 0,
    {
        History { usage_counts: Vec::new() }
    }

    /// Looks up the usage count of `id`.
    pub fn get_count(&self, id: &str) -> (r: u32)
        ensures
            r == self.spec_count(id@),
    {
        let n = self.usage_counts.len();
        let mut i: usize = 0;
        while i < n
            invariant
                n == self.usage_counts@.len(),
                i <= n,
                forall|k: int| 0 <= k < i ==> self.usage_counts@[k].0@ != id@,
            decreases n - i,
        {
            if str_eq(self.usage_counts[i].0.as_str(), id) {
                proof {
                    lemma_count_in_step(self.usage_counts@, id@, i as int);
                }
                return self.usage_counts[i].1;
            }
            i += 1;
        }
        proof {
            if n > 0 {
                lemma_count_in_step(self.usage_counts@, id@, n - 1);
            }
        }
        0
    }
}

/// Records one more execution of `id`: its counter grows by one
/// (saturating at the counter's maximum); every other id keeps its count.
pub fn increment_usage(history: &mut History, id: &str)
    ensures
        final(history).spec_count(id@) == if old(history).spec_count(id@) < u32::MAX {
            (old(history).spec_count(id@) + 1) as u32
        } else {
            u32::MAX
        },
        forall|other: Seq<char>|
            other != id@ ==> final(history).spec_count(other) == old(history).spec_count(other),
{
    let n = history.usage_counts.len();
    let mut i: usize = 0;
    while i < n
        invariant
            n == history.usage_counts@.len(),
            i <= n,
            *history == *old(history),
            forall|k: int| 0 <= k < i ==> history.usage_counts@[k].0@ != id@,
        decreases n - i,
    {
        if str_eq(history.usage_counts[i].0.as_str(), id) {
            let count = history.usage_counts[i].1;
            let bumped = if count < u32::MAX {
                count + 1
            } else {
                u32::MAX
            };
            let key = history.usage_counts[i].0.clone();
            history.usage_counts[i] = (key, bumped);
            proof {
                lemma_count_in_step(old(history).usage_counts@, id@, i as int);
                lemma_count_update(old(history).usage_counts@, history.usage_counts@, id@, i as int, bumped);
            }
            return;
        }
        i += 1;
    }
    let key = String::from_str(id);
    history.usage_counts.push((key, 1));
    proof {
        if n > 0 {
            lemma_count_in_step(old(history).usage_counts@, id@, n - 1);
        }
        assert(history.usage_counts@ =~= old(history).usage_counts@.push(
            history.usage_counts@[n as int],
        ));
        lemma_count_append(old(history).usage_counts@, id@, history.usage_counts@[n as int]);
    }
}

proof fn lemma_count_update(
    before: Seq<(String, u32)>,
    after: Seq<(String, u32)>,
    id: Seq<char>,
    i: int,
    bumped: u32,
)
    requires
        0 <= i < before.len(),
        after.len() == before.len(),
        before[i].0@ == id,
        after[i].0@ == id,
        after[i].1 == bumped,
        forall|k: int| 0 <= k < i ==> before[k].0@ != id,
        forall|k: int| 0 <= k < before.len() && k != i ==> after[k] == before[k],
    ensures
        count_in(after, id) == bumped,
        forall|other: Seq<char>| other != id ==> count_in(after, other) == count_in(before, other),
    decreases i,
{
    if i == 0 {
        assert(after.drop_first() =~= before.drop_first());
        assert forall|other: Seq<char>| other != id implies count_in(after, other) == count_in(
            before,
            other,
        ) by {
            assert(count_in(after, other) == count_in(after.drop_first(), other));
            assert(count_in(before, other) == count_in(before.drop_first(), other));
        }
    } else {
        assert(forall|k: int|
            0 <= k < i - 1 ==> before.drop_first()[k] == before[k + 1]);
        assert(forall|k: int|
            0 <= k < after.len() - 1 ==> after.drop_first()[k] == after[k + 1]);
        lemma_count_update(before.drop_first(), after.drop_first(), id, i - 1, bumped);
        assert(after[0] == before[0]);
        assert forall|other: Seq<char>| other != id implies count_in(after, other) == count_in(
            before,
            other,
        ) by {
            if before[0].0@ != other {
                assert(count_in(after, other) == count_in(after.drop_first(), other));
                assert(count_in(before, other) == count_in(before.drop_first(), other));
            }
        }
    }
}

proof fn lemma_count_append(before: Seq<(String, u32)>, id: Seq<char>, last: (String, u32))
    requires
        last.0@ == id,
        forall|k: int| 0 <= k < before.len() ==> before[k].0@ != id,
    ensures
        count_in(before.push(last), id) == last.1,
        forall|other: Seq<char>|
            other != id ==> count_in(before.push(last), other) == count_in(before, other),
    decreases before.len(),
{
    let appended = before.push(last);
    if before.len() == 0 {
        assert(appended[0] == last);
        assert forall|other: Seq<char>| other != id implies count_in(appended, other) == count_in(
            before,
            other,
        ) by {
            if appended[0].0@ != other {
                assert(appended.drop_first() =~= before);
            }
        }
    } else {
        assert(appended.drop_first() =~= before.drop_first().push(last));
        lemma_count_append(before.drop_first(), id, last);
        assert(appended[0] == before[0]);
        assert forall|other: Seq<char>| other != id implies count_in(appended, other) == count_in(
            before,
            other,
        ) by {
            if before[0].0@ != other {
                assert(count_in(appended, other) == count_in(appended.drop_first(), other));
                assert(count_in(before, other) == count_in(before.drop_first(), other));
                assert(count_in(before.drop_first().push(last), other) == count_in(
                    before.drop_first(),
                    other,
                ));
            }
        }
    }
}

} // verus!
