//! Track the CPU time of a process (and of its children).

use vstd::prelude::*;
use crate::error::Error;
use crate::pid::{Delivery, Pid, Signal};
use crate::process_table::{listed_before, ProcessTable};

verus! {

/// Whether the child processes should be monitored.
#[derive(Clone, Copy, PartialEq, Eq, Debug, Structural)]
pub enum ChildrenMode {
    /// The target and all the processes that descend from it.
    Include,
    /// The target alone.
    Exclude,
}

impl Default for ChildrenMode {
    fn default() -> (mode: Self)
        ensures
            mode == ChildrenMode::Exclude,
    {
        ChildrenMode::Exclude
    }
}

/// What a group has used between two looks at it.
#[derive(Clone, Copy, PartialEq, Eq, Debug, Structural)]
pub struct Sample {
    /// The CPU time used, in clock ticks.
    pub consumed: u128,
    /// The time that has passed, in nanoseconds.
    pub elapsed: u64,
    /// Whether this is the first sample of the group: the usage that it
    /// shows stands as it is, with no earlier usage to smooth it with.
    pub first: bool,
}

/// A process and, if asked for, the processes that descend from it, with the
/// CPU time that they had used together when last looked at, and the time of
/// that look.
pub struct ProcessGroup {
    target: Pid,
    children_mode: ChildrenMode,
    children: Vec<Pid>,
    last_update: u64,
    total_time: u128,
    sampled: bool,
}

/// The CPU time of the processes `pids` together, in clock ticks, as `table`
/// shows it.
pub open spec fn sum_cputime(table: &ProcessTable, pids: Seq<Pid>) -> nat
    decreases pids.len(),
{
    if pids.len() == 0 {
        0
    } else {
        sum_cputime(table, pids.drop_last()) + pids.last().spec_cputime(table)
    }
}

/// The processes among the first `upto` entries of `table` that descend from
/// `target`, each once, in the order in which the table first lists them.
pub open spec fn descendants_before(table: &ProcessTable, target: Pid, upto: int) -> Seq<Pid>
    decreases upto,
{
    if upto <= 0 || upto > table.entries@.len() {
        Seq::empty()
    } else {
        let before = descendants_before(table, target, upto - 1);
        let pid = table.entries@[upto - 1].pid;
        if pid != target && !before.contains(pid) && pid.spec_is_child_of(target, table) {
            before.push(pid)
        } else {
            before
        }
    }
}

/// The processes of `table` that descend from `target`, each once, in the
/// order in which the table first lists them.
pub open spec fn descendants(table: &ProcessTable, target: Pid) -> Seq<Pid> {
    descendants_before(table, target, table.entries@.len() as int)
}

/// The processes to signal for a group with these members: the target, then
/// the children in the order in which they are held.
pub open spec fn deliveries(members: Seq<Pid>, signal: Signal) -> Seq<Delivery> {
    Seq::new(members.len(), |i: int| (Delivery { pid: members[i], signal }))
}

/// The CPU time used between two looks at a group, given its total at each:
/// never negative, since the total falls when members leave the group.
pub open spec fn consumed_between(before: nat, after: nat) -> nat {
    if after >= before {
        (after - before) as nat
    } else {
        0
    }
}

/// A process that has left the process table has left the group with the
/// next look at it.
///
/// Take a group that follows the children of its target, and a look at a
/// table that could be listed. A process that the table does not list is no
/// child of the group afterwards, whether it was one before or not; and each
/// child that the group then holds is listed and descends from the target.
pub proof fn lemma_refresh_drops_unlisted(
    pre: &ProcessGroup,
    post: &ProcessGroup,
    table: &ProcessTable,
    now: u64,
    pid: Pid,
)
    requires
        ProcessGroup::refreshed(pre, post, table, now),
        pre.spec_children_mode() == ChildrenMode::Include,
        table.enumerated,
    ensures
        !table.lists(pid) ==> !post.spec_children().contains(pid),
        post.spec_children().contains(pid) ==> table.lists(pid) && pid.spec_is_child_of(
            pre.spec_target(),
            table,
        ),
{
}

/// Every member of a group is among those that a signal for the group goes
/// to.
pub proof fn lemma_deliveries_reach_members(members: Seq<Pid>, signal: Signal, pid: Pid)
    requires
        members.contains(pid),
    ensures
        deliveries(members, signal).contains((Delivery { pid, signal })),
        deliveries(members, signal).len() == members.len(),
{
    let k = choose|k: int| 0 <= k < members.len() && members[k] == pid;
    assert(deliveries(members, signal)[k] == (Delivery { pid, signal }));
}

/// The time that has passed between two readings of the clock, in
/// nanoseconds: none where the clock has gone back.
pub open spec fn elapsed_between(before: u64, after: u64) -> u64 {
    if after >= before {
        (after - before) as u64
    } else {
        0
    }
}

proof fn lemma_push_contains(s: Seq<Pid>, x: Pid, p: Pid)
    ensures
        s.push(x).contains(p) <==> s.contains(p) || p == x,
{
    if s.contains(p) {
        let k = choose|k: int| 0 <= k < s.len() && s[k] == p;
        assert(s.push(x)[k] == p);
    }
    if p == x {
        assert(s.push(x)[s.len() as int] == p);
    }
}

proof fn lemma_push_no_duplicates(s: Seq<Pid>, x: Pid)
    requires
        s.no_duplicates(),
        !s.contains(x),
    ensures
        s.push(x).no_duplicates(),
{
    assert forall|i: int, j: int|
        0 <= i < s.push(x).len() && 0 <= j < s.push(x).len() && i != j implies s.push(x)[i]
        != s.push(x)[j] by {
        if i < s.len() {
            assert(s[i] == s.push(x)[i]);
        }
        if j < s.len() {
            assert(s[j] == s.push(x)[j]);
        }
    }
}

fn contains_pid(pids: &Vec<Pid>, pid: Pid) -> (r: bool)
    ensures
        r == pids@.contains(pid),
{
    let mut i: usize = 0;
    while i < pids.len()
        invariant
            i <= pids@.len(),
            forall|j: int| 0 <= j < i ==> pids@[j] != pid,
        decreases pids@.len() - i,
    {
        if pids[i].0 == pid.0 {
            return true;
        }
        i = i + 1;
    }
    false
}

impl ProcessGroup {
    /// The process that the group is about.
    pub closed spec fn spec_target(&self) -> Pid {
        self.target
    }

    /// Whether the group follows the children of its target.
    pub closed spec fn spec_children_mode(&self) -> ChildrenMode {
        self.children_mode
    }

    /// The children that the group holds.
    pub closed spec fn spec_children(&self) -> Seq<Pid> {
        self.children@
    }

    /// The CPU time of the group in clock ticks, when last looked at.
    pub closed spec fn spec_total_time(&self) -> u128 {
        self.total_time
    }

    /// Whether the group has given a sample: whether it was looked at again
    /// since it was made.
    pub closed spec fn spec_sampled(&self) -> bool {
        self.sampled
    }

    /// The time of the last look at the group, in nanoseconds on the clock
    /// of the caller.
    pub closed spec fn spec_last_update(&self) -> u64 {
        self.last_update
    }

    /// The processes of the group: the target, then the children where the
    /// group follows them.
    pub open spec fn members(&self) -> Seq<Pid> {
        match self.spec_children_mode() {
            ChildrenMode::Include => seq![self.spec_target()] + self.spec_children(),
            ChildrenMode::Exclude => seq![self.spec_target()],
        }
    }

    /// No child is held twice, and the target is no child of itself. This
    /// holds of every group.
    pub open spec fn wf(&self) -> bool {
        &&& self.spec_children().no_duplicates()
        &&& !self.spec_children().contains(self.spec_target())
    }

    #[verifier::type_invariant]
    spec fn inv(&self) -> bool {
        &&& self.children@.no_duplicates()
        &&& !self.children@.contains(self.target)
    }

    /// What the group `post` has used since it was the group `pre`.
    pub open spec fn sample_between(pre: &ProcessGroup, post: &ProcessGroup) -> Sample {
        Sample {
            consumed: consumed_between(
                pre.spec_total_time() as nat,
                post.spec_total_time() as nat,
            ) as u128,
            elapsed: elapsed_between(pre.spec_last_update(), post.spec_last_update()),
            first: !pre.spec_sampled(),
        }
    }

    /// Whether `group` is what a look at `table`, at the time `now`, makes of
    /// a group of `target` that held the children `kept`, where `table` shows
    /// the target alive.
    ///
    /// Where the group follows the children and the process table could be
    /// listed, the children are replaced by the listed processes that descend
    /// from the target, each once, and the total is the time of the target
    /// and of these children. Else the children stay, and the total is the
    /// time of the target alone.
    pub open spec fn looked_at(
        group: &ProcessGroup,
        target: Pid,
        children_mode: ChildrenMode,
        kept: Seq<Pid>,
        table: &ProcessTable,
        now: u64,
    ) -> bool {
        &&& group.spec_target() == target
        &&& group.spec_children_mode() == children_mode
        &&& group.spec_last_update() == now
        &&& group.wf()
        &&& if children_mode == ChildrenMode::Include && table.enumerated {
            &&& group.spec_children() == descendants(table, target)
            &&& forall|p: Pid| #[trigger]
                group.spec_children().contains(p) <==> table.lists(p) && p != target
                    && p.spec_is_child_of(target, table)
            &&& group.spec_total_time() == target.spec_cputime(table) + sum_cputime(
                table,
                group.spec_children(),
            )
        } else {
            &&& group.spec_children() == kept
            &&& group.spec_total_time() == target.spec_cputime(table)
        }
    }

    /// Whether `post` is what a look at `table`, at the time `now`, makes of
    /// the group `pre`, whose target `table` shows alive.
    pub open spec fn refreshed(
        pre: &ProcessGroup,
        post: &ProcessGroup,
        table: &ProcessTable,
        now: u64,
    ) -> bool {
        Self::looked_at(
            post,
            pre.spec_target(),
            pre.spec_children_mode(),
            pre.spec_children(),
            table,
            now,
        )
    }

    /// Instantiates a process group and looks at it once, at the time `now`,
    /// so that the next look gives what was used since.
    ///
    /// A target that `table` does not show alive is refused.
    pub fn new(pid: Pid, children_mode: ChildrenMode, table: &ProcessTable, now: u64) -> (r: Result<
        Self,
        Error,
    >)
        ensures
            r.is_ok() == table.spec_alive(pid),
            match r {
                Ok(group) => !group.spec_sampled() && Self::looked_at(
                    &group,
                    pid,
                    children_mode,
                    Seq::empty(),
                    table,
                    now,
                ),
                Err(e) => e == Error::DeadTarget,
            },
    {
        let mut group = ProcessGroup {
            target: pid,
            children_mode,
            children: Vec::new(),
            last_update: now,
            total_time: 0,
            sampled: false,
        };
        match group.update(table, now) {
            Ok(_) => {
                group.sampled = false;
                Ok(group)
            },
            Err(e) => Err(e),
        }
    }

    /// Looks at the group again, at the time `now`: replaces the children,
    /// sums the CPU time of the members, and gives what was used since the
    /// last look.
    ///
    /// A dead target is an error and leaves the group as it was.
    pub fn update(&mut self, table: &ProcessTable, now: u64) -> (r: Result<Sample, Error>)
        ensures
            match r {
                Ok(sample) => {
                    &&& table.spec_alive(old(self).spec_target())
                    &&& Self::refreshed(old(self), final(self), table, now)
                    &&& sample == Self::sample_between(old(self), final(self))
                    &&& sample.consumed as nat == consumed_between(
                        old(self).spec_total_time() as nat,
                        final(self).spec_total_time() as nat,
                    )
                    &&& sample.elapsed == elapsed_between(old(self).spec_last_update(), now)
                    &&& sample.first == !old(self).spec_sampled()
                    &&& final(self).spec_sampled()
                },
                Err(e) => {
                    &&& !table.spec_alive(old(self).spec_target())
                    &&& e == Error::DeadTarget
                    &&& *final(self) == *old(self)
                },
            },
    {
        proof {
            use_type_invariant(&*self);
        }
        if !self.target.alive(table) {
            return Err(Error::DeadTarget);
        }
        let target: Pid = self.target;
        let prev_time: u128 = self.total_time;
        let prev_update: u64 = self.last_update;
        let first: bool = !self.sampled;
        let mut total: u128 = self.target.get_cputime(table) as u128;
        let follow: bool = match self.children_mode {
            ChildrenMode::Include => table.enumerated,
            ChildrenMode::Exclude => false,
        };
        if follow {
            let mut children: Vec<Pid> = Vec::new();
            let n: usize = table.entries.len();
            let mut i: usize = 0;
            while i < n
                invariant
                    i <= n,
                    n == table.entries@.len(),
                    children@.no_duplicates(),
                    children@.len() <= i,
                    children@ == descendants_before(table, target, i as int),
                    forall|p: Pid| #[trigger]
                        children@.contains(p) <==> listed_before(table, p, i as int) && p != target
                            && p.spec_is_child_of(target, table),
                    total == target.spec_cputime(table) + sum_cputime(table, children@),
                    total <= (1 + children@.len()) * 0xffff_ffff_ffff_ffff,
                decreases n - i,
            {
                let process: Pid = table.entries[i].pid;
                let ghost before = children@;
                let mut added: bool = false;
                if process.0 != target.0 && !contains_pid(&children, process) {
                    if process.is_child_of(target, table) {
                        children.push(process);
                        let time: u64 = process.get_cputime(table);
                        proof {
                            assert(children@.drop_last() =~= before);
                            assert((2 + before.len()) * 0xffff_ffff_ffff_ffff == (1 + before.len())
                                * 0xffff_ffff_ffff_ffff + 0xffff_ffff_ffff_ffff) by (nonlinear_arith);
                            assert((2 + before.len()) * 0xffff_ffff_ffff_ffff
                                <= 0x1_0000_0000_0000_0000 * 0xffff_ffff_ffff_ffff)
                                by (nonlinear_arith)
                                requires
                                    2 + before.len() <= 0x1_0000_0000_0000_0000,
                            ;
                            lemma_push_no_duplicates(before, process);
                        }
                        total = total + time as u128;
                        added = true;
                    }
                }
                proof {
                    assert forall|p: Pid| #[trigger]
                        children@.contains(p) <==> listed_before(table, p, i + 1) && p != target
                            && p.spec_is_child_of(target, table) by {
                        if added {
                            lemma_push_contains(before, process, p);
                        }
                        if listed_before(table, p, i + 1) {
                            let j = choose|j: int|
                                0 <= j < i + 1 && j < table.entries@.len() && (
                                #[trigger] table.entries@[j]).pid == p;
                            if j < i {
                                assert(listed_before(table, p, i as int));
                            }
                        }
                        if listed_before(table, p, i as int) {
                            let j = choose|j: int|
                                0 <= j < i && j < table.entries@.len() && (
                                #[trigger] table.entries@[j]).pid == p;
                            assert(listed_before(table, p, i + 1));
                        }
                        if p == process {
                            assert(table.entries@[i as int].pid == p);
                            assert(listed_before(table, p, i + 1));
                        }
                    }
                }
                i = i + 1;
            }
            proof {
                assert forall|p: Pid| listed_before(table, p, n as int) == table.lists(p) by {}
            }
            self.children = children;
        }
        self.total_time = total;
        self.last_update = now;
        self.sampled = true;
        let consumed: u128 = if total >= prev_time {
            total - prev_time
        } else {
            0
        };
        let elapsed: u64 = if now >= prev_update {
            now - prev_update
        } else {
            0
        };
        Ok(Sample { consumed, elapsed, first })
    }

    /// The process that the group is about.
    pub fn target(&self) -> (pid: Pid)
        ensures
            pid == self.spec_target(),
    {
        self.target
    }

    /// Whether the group follows the children of its target.
    pub fn children_mode(&self) -> (mode: ChildrenMode)
        ensures
            mode == self.spec_children_mode(),
    {
        self.children_mode
    }

    /// The children that the group holds.
    pub fn children(&self) -> (pids: &Vec<Pid>)
        ensures
            pids@ == self.spec_children(),
    {
        &self.children
    }

    /// Whether the group has given a sample.
    pub fn sampled(&self) -> (r: bool)
        ensures
            r == self.spec_sampled(),
    {
        self.sampled
    }

    /// The time of the last look at the group.
    pub fn last_update(&self) -> (at: u64)
        ensures
            at == self.spec_last_update(),
    {
        self.last_update
    }

    /// The CPU time of the group in clock ticks, when last looked at.
    pub fn total_time(&self) -> (ticks: u128)
        ensures
            ticks == self.spec_total_time(),
    {
        self.total_time
    }

    /// The deliveries that send `signal` to the target process and to its
    /// children if needed.
    pub fn kill(&self, signal: Signal) -> (r: Vec<Delivery>)
        ensures
            r@ == deliveries(self.members(), signal),
    {
        let mut out: Vec<Delivery> = Vec::new();
        out.push(self.target.kill(signal));
        match self.children_mode {
            ChildrenMode::Include => {
                let n: usize = self.children.len();
                let mut i: usize = 0;
                while i < n
                    invariant
                        i <= n,
                        n == self.children@.len(),
                        out@.len() == i + 1,
                        self.children_mode == ChildrenMode::Include,
                        forall|j: int|
                            0 <= j < out@.len() ==> out@[j] == (Delivery {
                                pid: self.members()[j],
                                signal,
                            }),
                    decreases n - i,
                {
                    out.push(self.children[i].kill(signal));
                    i = i + 1;
                }
            },
            ChildrenMode::Exclude => {},
        }
        proof {
            assert(out@ =~= deliveries(self.members(), signal));
        }
        out
    }

    /// The deliveries that suspend the execution of the group.
    pub fn suspend(&self) -> (r: Vec<Delivery>)
        ensures
            r@ == deliveries(self.members(), Signal::SIGSTOP),
    {
        self.kill(Signal::SIGSTOP)
    }

    /// The deliveries that resume the execution of the group.
    pub fn resume(&self) -> (r: Vec<Delivery>)
        ensures
            r@ == deliveries(self.members(), Signal::SIGCONT),
    {
        self.kill(Signal::SIGCONT)
    }
}

} // verus!
