//! The walk from a process towards its ancestors.
//!
//! The walk goes from a process to its parent, again and again, until it
//! meets the process it looks for, the `init` process, or a process whose
//! parent is unknown. A walk that meets the process it looks for passes no
//! process twice, and every process that it leaves is listed in the table.
//! So it takes no more steps than the table has entries, and a walk that is
//! cut off there misses nothing.

use vstd::prelude::*;
use crate::pid::{Pid, INIT};
use crate::process_table::{entry_of, listed_before, ProcessEntry, ProcessTable};

verus! {

/// Where a walk from `from` towards the ancestors stands after at most
/// `lookups` steps from a process to its parent. The walk stops at `other`,
/// at the `init` process, and at process 0, which stands for an unknown
/// parent.
pub open spec fn ancestor_walk(table: &ProcessTable, from: Pid, other: Pid, lookups: nat) -> Pid
    decreases lookups,
{
    if lookups == 0 || from.0 <= INIT || from == other {
        from
    } else {
        ancestor_walk(table, from.spec_ppid(table), other, (lookups - 1) as nat)
    }
}

/// The number of steps from a process to its parent that the walk of
/// [`ancestor_walk`] takes.
pub open spec fn walk_lookups(table: &ProcessTable, from: Pid, other: Pid, lookups: nat) -> nat
    decreases lookups,
{
    if lookups == 0 || from.0 <= INIT || from == other {
        0
    } else {
        1 + walk_lookups(table, from.spec_ppid(table), other, (lookups - 1) as nat)
    }
}

/// The ancestor of `from` that stands `k` generations above it.
pub open spec fn nth_parent(table: &ProcessTable, from: Pid, k: nat) -> Pid
    decreases k,
{
    if k == 0 {
        from
    } else {
        nth_parent(table, from.spec_ppid(table), (k - 1) as nat)
    }
}

/// A walk towards the ancestors is no longer than the chain of ancestors.
///
/// Where the ancestor `k` generations above `from` is the `init` process (or
/// process 0), a walk from `from` takes at most `k` steps from a process to
/// its parent, whatever it looks for and however many steps it may take.
pub proof fn lemma_walk_bounded_by_chain(
    table: &ProcessTable,
    from: Pid,
    other: Pid,
    k: nat,
    lookups: nat,
)
    requires
        nth_parent(table, from, k).0 <= INIT,
    ensures
        walk_lookups(table, from, other, lookups) <= k,
    decreases k,
{
    if k > 0 && lookups > 0 && from.0 > INIT && from != other {
        lemma_walk_bounded_by_chain(
            table,
            from.spec_ppid(table),
            other,
            (k - 1) as nat,
            (lookups - 1) as nat,
        );
    }
}

/// Whether a walk that looks for `other` stops at `pid`.
pub open spec fn walk_stops_at(pid: Pid, other: Pid) -> bool {
    pid.0 <= INIT || pid == other
}

/// Whether `other` is met on the way from `from` towards its ancestors,
/// however long the way is.
pub open spec fn reaches(table: &ProcessTable, from: Pid, other: Pid) -> bool {
    exists|lookups: nat| ancestor_walk(table, from, other, lookups) == other
}

/// The processes that the first `upto` entries of `table` speak of.
pub open spec fn listed_set(table: &ProcessTable, upto: int) -> Set<Pid> {
    Set::new(|pid: Pid| listed_before(table, pid, upto))
}

/// A walk that has stopped stays where it is, however many more steps it
/// may take.
pub proof fn lemma_walk_stable(table: &ProcessTable, from: Pid, other: Pid, k: nat, more: nat)
    requires
        walk_stops_at(ancestor_walk(table, from, other, k), other),
        k <= more,
    ensures
        ancestor_walk(table, from, other, more) == ancestor_walk(table, from, other, k),
        walk_lookups(table, from, other, more) == walk_lookups(table, from, other, k),
    decreases k,
{
    if k > 0 && !walk_stops_at(from, other) {
        lemma_walk_stable(
            table,
            from.spec_ppid(table),
            other,
            (k - 1) as nat,
            (more - 1) as nat,
        );
    }
}

/// A walk takes no more steps than it may, and needs no more than it takes.
pub proof fn lemma_walk_uses_its_lookups(table: &ProcessTable, from: Pid, other: Pid, k: nat)
    ensures
        walk_lookups(table, from, other, k) <= k,
        ancestor_walk(table, from, other, walk_lookups(table, from, other, k)) == ancestor_walk(
            table,
            from,
            other,
            k,
        ),
    decreases k,
{
    if k > 0 && !walk_stops_at(from, other) {
        lemma_walk_uses_its_lookups(table, from.spec_ppid(table), other, (k - 1) as nat);
    }
}

/// The walk from a process that an earlier walk passes is the rest of that
/// walk.
pub proof fn lemma_walk_from_ancestor(
    table: &ProcessTable,
    from: Pid,
    other: Pid,
    k: nat,
    i: nat,
)
    requires
        i <= walk_lookups(table, from, other, k),
    ensures
        i <= k,
        ancestor_walk(table, nth_parent(table, from, i), other, (k - i) as nat) == ancestor_walk(
            table,
            from,
            other,
            k,
        ),
        walk_lookups(table, nth_parent(table, from, i), other, (k - i) as nat) + i == walk_lookups(
            table,
            from,
            other,
            k,
        ),
    decreases i,
{
    if i > 0 {
        lemma_walk_from_ancestor(
            table,
            from.spec_ppid(table),
            other,
            (k - 1) as nat,
            (i - 1) as nat,
        );
    }
}

/// A process of which the entries hold something is listed among them.
pub proof fn lemma_entry_of_listed(entries: Seq<ProcessEntry>, pid: Pid)
    requires
        entry_of(entries, pid).is_some(),
    ensures
        exists|i: int| 0 <= i < entries.len() && (#[trigger] entries[i]).pid == pid,
    decreases entries.len(),
{
    if entries[0].pid != pid {
        lemma_entry_of_listed(entries.drop_first(), pid);
        let i = choose|i: int|
            0 <= i < entries.drop_first().len() && (#[trigger] entries.drop_first()[i]).pid == pid;
        assert(entries[i + 1].pid == pid);
    }
}

/// A table speaks of no more processes than it has entries.
pub proof fn lemma_listed_set_len(table: &ProcessTable, upto: int)
    requires
        0 <= upto <= table.entries@.len(),
    ensures
        listed_set(table, upto).finite(),
        listed_set(table, upto).len() <= upto,
    decreases upto,
{
    if upto == 0 {
        assert(listed_set(table, upto) =~= Set::<Pid>::empty());
    } else {
        lemma_listed_set_len(table, upto - 1);
        let last = table.entries@[upto - 1].pid;
        assert forall|pid: Pid|
            listed_before(table, pid, upto) <==> listed_before(table, pid, upto - 1) || pid
                == last by {
            if listed_before(table, pid, upto) {
                let j = choose|j: int|
                    0 <= j < upto && j < table.entries@.len() && (#[trigger] table.entries@[j]).pid
                        == pid;
                if j < upto - 1 {
                    assert(listed_before(table, pid, upto - 1));
                }
            }
            if listed_before(table, pid, upto - 1) {
                let j = choose|j: int|
                    0 <= j < upto - 1 && j < table.entries@.len() && (
                    #[trigger] table.entries@[j]).pid == pid;
                assert(listed_before(table, pid, upto));
            }
            if pid == last {
                assert(table.entries@[upto - 1].pid == pid);
                assert(listed_before(table, pid, upto));
            }
        }
        assert(listed_set(table, upto) =~= listed_set(table, upto - 1).insert(last));
    }
}

/// A walk that arrives at `other` has taken no more steps than the table
/// lists processes that it has not seen before.
proof fn lemma_lookups_and_seen(
    table: &ProcessTable,
    from: Pid,
    other: Pid,
    k: nat,
    seen: Set<Pid>,
)
    requires
        other != Pid(0),
        ancestor_walk(table, from, other, k) == other,
        seen.subset_of(listed_set(table, table.entries@.len() as int)),
        forall|i: nat|
            i < walk_lookups(table, from, other, k) ==> !seen.contains(
                #[trigger] nth_parent(table, from, i),
            ),
    ensures
        walk_lookups(table, from, other, k) + seen.len() <= table.entries@.len(),
    decreases k,
{
    let n = table.entries@.len() as int;
    let all = listed_set(table, n);
    lemma_listed_set_len(table, n);
    vstd::set_lib::lemma_len_subset(seen, all);
    if k > 0 && !walk_stops_at(from, other) {
        let parent = from.spec_ppid(table);
        let rest = walk_lookups(table, parent, other, (k - 1) as nat);
        // the process that the walk leaves is listed, since its parent is known
        if parent == Pid(0) {
            assert(ancestor_walk(table, parent, other, (k - 1) as nat) == parent);
        }
        assert(entry_of(table.entries@, from).is_some());
        lemma_entry_of_listed(table.entries@, from);
        let at = choose|i: int|
            0 <= i < table.entries@.len() && (#[trigger] table.entries@[i]).pid == from;
        assert(listed_before(table, from, n));
        assert(nth_parent(table, from, 0) == from);
        let seen_next = seen.insert(from);
        assert(seen_next.subset_of(all));
        assert forall|i: nat| i < rest implies !seen_next.contains(
            #[trigger] nth_parent(table, parent, i),
        ) by {
            let later = nth_parent(table, from, i + 1);
            assert(later == nth_parent(table, parent, i));
            if later == from {
                // the walk would pass `from` twice, and so never arrive
                lemma_walk_from_ancestor(table, from, other, k, i + 1);
                lemma_walk_stable(table, from, other, (k - (i + 1)) as nat, k);
            }
        }
        lemma_lookups_and_seen(table, parent, other, (k - 1) as nat, seen_next);
    }
}

/// A walk that is cut off after one step for each entry of the table misses
/// nothing.
///
/// Where `other` is met on the way from `from` towards its ancestors at all,
/// it is met within as many steps as the table has entries. Process 0, which
/// stands for an unknown parent, is left out: it is no process to be met.
pub proof fn lemma_walk_bounded_by_table(table: &ProcessTable, from: Pid, other: Pid)
    requires
        other != Pid(0),
    ensures
        reaches(table, from, other) <==> ancestor_walk(
            table,
            from,
            other,
            table.entries@.len(),
        ) == other,
{
    if reaches(table, from, other) {
        let k = choose|k: nat| ancestor_walk(table, from, other, k) == other;
        lemma_lookups_and_seen(table, from, other, k, Set::<Pid>::empty());
        lemma_walk_uses_its_lookups(table, from, other, k);
        lemma_walk_stable(
            table,
            from,
            other,
            walk_lookups(table, from, other, k),
            table.entries@.len(),
        );
    }
}

} // verus!
