//! The billing schedule: a time-bucketed reinsertion queue.
//!
//! The schedule is a list of `(epoch, contract_id)` entries. The bucket of
//! an epoch is the set of entries carrying it; firing an epoch drains its
//! bucket and every contract that stays live is reinserted one billing
//! cycle later, so a live contract always sits in exactly one future
//! bucket.

use vstd::prelude::*;

verus! {

/// Entries that survive draining the bucket of `epoch`, in order.
pub open spec fn kept_entries(s: Seq<(u64, u64)>, epoch: u64) -> Seq<(u64, u64)>
    decreases s.len(),
{
    if s.len() == 0 {
        Seq::empty()
    } else {
        let rest = kept_entries(s.drop_last(), epoch);
        if s.last().0 == epoch {
            rest
        } else {
            rest.push(s.last())
        }
    }
}

/// Contract ids due at `epoch`, in schedule order.
pub open spec fn due_ids(s: Seq<(u64, u64)>, epoch: u64) -> Seq<u64>
    decreases s.len(),
{
    if s.len() == 0 {
        Seq::empty()
    } else {
        let rest = due_ids(s.drop_last(), epoch);
        if s.last().0 == epoch {
            rest.push(s.last().1)
        } else {
            rest
        }
    }
}

/// Whether some entry of the schedule carries this contract id.
pub open spec fn has_id(s: Seq<(u64, u64)>, id: u64) -> bool {
    exists|k: int| 0 <= k < s.len() && (#[trigger] s[k]).1 == id
}

/// No two entries carry the same contract id.
pub open spec fn ids_distinct(s: Seq<(u64, u64)>) -> bool {
    forall|k1: int, k2: int|
        0 <= k1 < k2 < s.len() ==> (#[trigger] s[k1]).1 != (#[trigger] s[k2]).1
}

/// Every entry kept after a drain stood in the schedule, at another epoch.
pub proof fn lemma_kept_entries_source(s: Seq<(u64, u64)>, epoch: u64)
    ensures
        forall|j: int|
            0 <= j < kept_entries(s, epoch).len() ==> (#[trigger] kept_entries(s, epoch)[j]).0
                != epoch && has_id(s, kept_entries(s, epoch)[j].1) && exists|k: int|
                0 <= k < s.len() && (#[trigger] s[k]) == kept_entries(s, epoch)[j],
    decreases s.len(),
{
    if s.len() > 0 {
        lemma_kept_entries_source(s.drop_last(), epoch);
        let kept = kept_entries(s, epoch);
        let rest = kept_entries(s.drop_last(), epoch);
        assert forall|j: int| 0 <= j < kept.len() implies (#[trigger] kept[j]).0 != epoch
            && has_id(s, kept[j].1) && exists|k: int|
            0 <= k < s.len() && (#[trigger] s[k]) == kept[j] by {
            if j < rest.len() {
                assert(kept[j] == rest[j]);
                let k = choose|k: int| 0 <= k < s.drop_last().len() && (#[trigger] s.drop_last()[k])
                    == rest[j];
                assert(s[k] == rest[j]);
            } else {
                assert(kept[j] == s.last());
                assert(s[s.len() - 1] == s.last());
            }
        }
    }
}

/// Every id due at an epoch stood in the schedule at that epoch.
pub proof fn lemma_due_ids_source(s: Seq<(u64, u64)>, epoch: u64)
    ensures
        forall|j: int|
            #![trigger due_ids(s, epoch)[j]]
            0 <= j < due_ids(s, epoch).len() ==> exists|k: int|
                0 <= k < s.len() && (#[trigger] s[k]) == (epoch, due_ids(s, epoch)[j]),
    decreases s.len(),
{
    if s.len() > 0 {
        lemma_due_ids_source(s.drop_last(), epoch);
        let due = due_ids(s, epoch);
        let rest = due_ids(s.drop_last(), epoch);
        assert forall|j: int| #![trigger due[j]] 0 <= j < due.len() implies exists|k: int|
            0 <= k < s.len() && (#[trigger] s[k]) == (epoch, due[j]) by {
            if j < rest.len() {
                assert(due[j] == rest[j]);
                let k = choose|k: int| 0 <= k < s.drop_last().len() && (#[trigger] s.drop_last()[k])
                    == (epoch, rest[j]);
                assert(s[k] == (epoch, rest[j]));
            } else {
                assert(due[j] == s.last().1);
                assert(s[s.len() - 1] == (epoch, due[j]));
            }
        }
    }
}

/// Draining splits the schedule: every entry either survives or its id is
/// due.
pub proof fn lemma_drain_complete(s: Seq<(u64, u64)>, epoch: u64)
    ensures
        forall|k: int|
            0 <= k < s.len() ==> (if (#[trigger] s[k]).0 == epoch {
                due_ids(s, epoch).contains(s[k].1)
            } else {
                has_id(kept_entries(s, epoch), s[k].1)
            }),
    decreases s.len(),
{
    if s.len() > 0 {
        lemma_drain_complete(s.drop_last(), epoch);
        let due = due_ids(s, epoch);
        let rest_due = due_ids(s.drop_last(), epoch);
        let kept = kept_entries(s, epoch);
        let rest_kept = kept_entries(s.drop_last(), epoch);
        assert forall|k: int|
            0 <= k < s.len() implies (if (#[trigger] s[k]).0 == epoch {
            due.contains(s[k].1)
        } else {
            has_id(kept, s[k].1)
        }) by {
            if k < s.len() - 1 {
                assert(s.drop_last()[k] == s[k]);
                if s[k].0 == epoch {
                    let j = choose|j: int| 0 <= j < rest_due.len() && rest_due[j] == s[k].1;
                    if s.last().0 == epoch {
                        assert(due[j] == rest_due[j]);
                    } else {
                        assert(due == rest_due);
                    }
                    assert(due[j] == s[k].1);
                } else {
                    let j = choose|j: int|
                        0 <= j < rest_kept.len() && (#[trigger] rest_kept[j]).1 == s[k].1;
                    if s.last().0 == epoch {
                        assert(kept == rest_kept);
                    } else {
                        assert(kept[j] == rest_kept[j]);
                    }
                    assert(kept[j].1 == s[k].1);
                }
            } else {
                assert(s[k] == s.last());
                if s.last().0 == epoch {
                    assert(due.last() == s.last().1);
                    assert(due[due.len() - 1] == s[k].1);
                } else {
                    assert(kept.last() == s.last());
                    assert(kept[kept.len() - 1].1 == s[k].1);
                }
            }
        }
    }
}

/// Draining a schedule with distinct ids keeps them distinct, keeps the
/// due ids distinct, and leaves the two groups disjoint.
pub proof fn lemma_drain_distinct(s: Seq<(u64, u64)>, epoch: u64)
    requires
        ids_distinct(s),
    ensures
        ids_distinct(kept_entries(s, epoch)),
        forall|j1: int, j2: int|
            0 <= j1 < j2 < due_ids(s, epoch).len() ==> due_ids(s, epoch)[j1] != due_ids(
                s,
                epoch,
            )[j2],
        forall|j: int|
            0 <= j < due_ids(s, epoch).len() ==> !has_id(
                kept_entries(s, epoch),
                #[trigger] due_ids(s, epoch)[j],
            ),
    decreases s.len(),
{
    if s.len() > 0 {
        assert(forall|k: int|
            0 <= k < s.len() - 1 ==> #[trigger] s.drop_last()[k] == s[k]);
        lemma_drain_distinct(s.drop_last(), epoch);
        lemma_kept_entries_source(s.drop_last(), epoch);
        lemma_due_ids_source(s.drop_last(), epoch);
        let due = due_ids(s, epoch);
        let rest_due = due_ids(s.drop_last(), epoch);
        let kept = kept_entries(s, epoch);
        let rest_kept = kept_entries(s.drop_last(), epoch);
        // The last entry's id is new to both groups of the prefix.
        assert forall|j: int| 0 <= j < rest_due.len() implies rest_due[j] != s.last().1 by {
            let k = choose|k: int|
                0 <= k < s.drop_last().len() && (#[trigger] s.drop_last()[k]) == (
                epoch,
                rest_due[j],
            );
            assert(s[k].1 == rest_due[j]);
        }
        assert forall|j: int|
            0 <= j < rest_kept.len() implies (#[trigger] rest_kept[j]).1 != s.last().1 by {
            let k = choose|k: int|
                0 <= k < s.drop_last().len() && (#[trigger] s.drop_last()[k]) == rest_kept[j];
            assert(s[k].1 == rest_kept[j].1);
        }
        if s.last().0 == epoch {
            assert(kept == rest_kept);
            assert(forall|j: int|
                0 <= j < due.len() - 1 ==> #[trigger] due[j] == rest_due[j]);
            assert(due.last() == s.last().1);
        } else {
            assert(due == rest_due);
            assert(forall|j: int|
                0 <= j < kept.len() - 1 ==> #[trigger] kept[j] == rest_kept[j]);
            assert(kept.last() == s.last());
            assert forall|j: int| 0 <= j < due.len() implies !has_id(kept, #[trigger] due[j]) by {
                assert(!has_id(rest_kept, due[j]));
                assert(forall|k: int|
                    0 <= k < kept.len() - 1 ==> (#[trigger] kept[k]) == rest_kept[k]);
            }
        }
    }
}

/// Appending an entry leaves earlier ids in place and adds the new one.
pub proof fn lemma_has_id_push(s: Seq<(u64, u64)>, v: (u64, u64))
    ensures
        forall|id: u64| has_id(s, id) ==> #[trigger] has_id(s.push(v), id),
        has_id(s.push(v), v.1),
        forall|id: u64|
            #[trigger] has_id(s.push(v), id) ==> has_id(s, id) || id == v.1,
{
    assert forall|id: u64| has_id(s, id) implies #[trigger] has_id(s.push(v), id) by {
        let k = choose|k: int| 0 <= k < s.len() && (#[trigger] s[k]).1 == id;
        assert(s.push(v)[k].1 == id);
    }
    assert(s.push(v)[s.len() as int].1 == v.1);
    assert forall|id: u64| #[trigger] has_id(s.push(v), id) implies has_id(s, id) || id == v.1 by {
        let k = choose|k: int| 0 <= k < s.push(v).len() && (#[trigger] s.push(v)[k]).1 == id;
        if k < s.len() {
            assert(s[k].1 == id);
        }
    }
}

/// Drains the bucket of one epoch: removes every entry carrying it and
/// returns the contract ids that were due, in schedule order.
pub fn take_due(schedule: &mut Vec<(u64, u64)>, epoch: u64) -> (due: Vec<u64>)
    ensures
        final(schedule)@ == kept_entries(old(schedule)@, epoch),
        due@ == due_ids(old(schedule)@, epoch),
{
    let ghost s = schedule@;
    let mut kept: Vec<(u64, u64)> = Vec::new();
    let mut due: Vec<u64> = Vec::new();
    let mut i: usize = 0;
    while i < schedule.len()
        invariant
            schedule@ == s,
            0 <= i <= s.len(),
            kept@ == kept_entries(s.take(i as int), epoch),
            due@ == due_ids(s.take(i as int), epoch),
        decreases s.len() - i,
    {
        proof {
            assert(s.take(i as int + 1).drop_last() =~= s.take(i as int));
            assert(s.take(i as int + 1).last() == s[i as int]);
        }
        let entry = schedule[i];
        if entry.0 == epoch {
            due.push(entry.1);
        } else {
            kept.push(entry);
        }
        i = i + 1;
    }
    proof {
        assert(s.take(s.len() as int) =~= s);
    }
    *schedule = kept;
    due
}

/// Removes the entries carrying one contract id.
pub fn remove_id(schedule: &mut Vec<(u64, u64)>, id: u64)
    ensures
        final(schedule)@ == entries_without(old(schedule)@, id),
{
    let ghost s = schedule@;
    let mut kept: Vec<(u64, u64)> = Vec::new();
    let mut i: usize = 0;
    while i < schedule.len()
        invariant
            schedule@ == s,
            0 <= i <= s.len(),
            kept@ == entries_without(s.take(i as int), id),
        decreases s.len() - i,
    {
        proof {
            assert(s.take(i as int + 1).drop_last() =~= s.take(i as int));
            assert(s.take(i as int + 1).last() == s[i as int]);
        }
        let entry = schedule[i];
        if entry.1 != id {
            kept.push(entry);
        }
        i = i + 1;
    }
    proof {
        assert(s.take(s.len() as int) =~= s);
    }
    *schedule = kept;
}

/// Entries that do not carry one contract id, in order.
pub open spec fn entries_without(s: Seq<(u64, u64)>, id: u64) -> Seq<(u64, u64)>
    decreases s.len(),
{
    if s.len() == 0 {
        Seq::empty()
    } else {
        let rest = entries_without(s.drop_last(), id);
        if s.last().1 == id {
            rest
        } else {
            rest.push(s.last())
        }
    }
}

/// Removing one id keeps every other entry and loses the id.
pub proof fn lemma_entries_without(s: Seq<(u64, u64)>, id: u64)
    ensures
        forall|j: int|
            0 <= j < entries_without(s, id).len() ==> (#[trigger] entries_without(s, id)[j]).1 != id
                && exists|k: int| 0 <= k < s.len() && (#[trigger] s[k]) == entries_without(s, id)[j],
        forall|k: int|
            0 <= k < s.len() && (#[trigger] s[k]).1 != id ==> has_id(
                entries_without(s, id),
                s[k].1,
            ),
    decreases s.len(),
{
    if s.len() > 0 {
        assert(forall|k: int|
            0 <= k < s.len() - 1 ==> #[trigger] s.drop_last()[k] == s[k]);
        lemma_entries_without(s.drop_last(), id);
        let out = entries_without(s, id);
        let rest = entries_without(s.drop_last(), id);
        assert forall|j: int|
            0 <= j < out.len() implies (#[trigger] out[j]).1 != id && exists|k: int|
            0 <= k < s.len() && (#[trigger] s[k]) == out[j] by {
            if j < rest.len() {
                assert(out[j] == rest[j]);
                let k = choose|k: int| 0 <= k < s.drop_last().len() && (#[trigger] s.drop_last()[k])
                    == rest[j];
                assert(s[k] == rest[j]);
            } else {
                assert(out[j] == s.last());
                assert(s[s.len() - 1] == out[j]);
            }
        }
        assert forall|k: int|
            0 <= k < s.len() && (#[trigger] s[k]).1 != id implies has_id(out, s[k].1) by {
            if k < s.len() - 1 {
                assert(s.drop_last()[k] == s[k]);
                assert(has_id(rest, s[k].1));
                let j = choose|j: int| 0 <= j < rest.len() && (#[trigger] rest[j]).1 == s[k].1;
                if s.last().1 == id {
                    assert(out == rest);
                } else {
                    assert(out[j] == rest[j]);
                }
                assert(out[j].1 == s[k].1);
            } else {
                assert(out.last() == s.last());
                assert(out[out.len() - 1].1 == s[k].1);
            }
        }
    }
}

/// Removing one id preserves distinctness.
pub proof fn lemma_entries_without_distinct(s: Seq<(u64, u64)>, id: u64)
    requires
        ids_distinct(s),
    ensures
        ids_distinct(entries_without(s, id)),
    decreases s.len(),
{
    if s.len() > 0 {
        assert(forall|k: int|
            0 <= k < s.len() - 1 ==> #[trigger] s.drop_last()[k] == s[k]);
        lemma_entries_without_distinct(s.drop_last(), id);
        lemma_entries_without(s.drop_last(), id);
        let out = entries_without(s, id);
        let rest = entries_without(s.drop_last(), id);
        if s.last().1 != id {
            assert forall|j: int|
                0 <= j < rest.len() implies (#[trigger] rest[j]).1 != s.last().1 by {
                let k = choose|k: int|
                    0 <= k < s.drop_last().len() && (#[trigger] s.drop_last()[k]) == rest[j];
                assert(s[k].1 == rest[j].1);
            }
            assert(forall|j: int|
                0 <= j < out.len() - 1 ==> #[trigger] out[j] == rest[j]);
            assert(out.last() == s.last());
        }
    }
}

} // verus!
