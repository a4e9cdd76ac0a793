//! The decisions of the limiting loop.
//!
//! The loop works in slices. In each slice it takes at most one command,
//! looks at the group, lets the group run for a part of the slice and holds
//! it for the rest. What is decided at the start of a slice stands here; the
//! caller looks at the system, sends the signals and waits.

use vstd::prelude::*;
use crate::pid::{Delivery, Pid, Signal};
use crate::process_group::{
    consumed_between, deliveries, elapsed_between, ProcessGroup, Sample,
};
use crate::process_table::ProcessTable;

verus! {

/// The length of a slice, in milliseconds.
///
/// The loop wakes up once in every slice to decide how long the monitored
/// processes may run in the next.
pub const SLICE_MILLIS: u64 = 100;

/// The length of a slice, in nanoseconds.
pub const SLICE_NANOS: u64 = SLICE_MILLIS * 1_000_000;

/// How the time of one slice is divided, in nanoseconds.
#[derive(Clone, Copy, PartialEq, Eq, Debug, Structural)]
pub struct Slice {
    /// For how long the group runs.
    pub work: u64,
    /// For how long the group is held afterwards.
    pub sleep: u64,
}

/// Divides a slice between running and holding the group.
///
/// The group runs for `work` nanoseconds, but for no longer than the slice
/// lasts, and is held for the rest of the slice. So the group runs for
/// between none and all of the slice, whatever is asked for.
pub fn divide_slice(work: u64) -> (slice: Slice)
    ensures
        slice.work == if work <= SLICE_NANOS {
            work
        } else {
            SLICE_NANOS
        },
        slice.work + slice.sleep == SLICE_NANOS,
{
    let work: u64 = if work <= SLICE_NANOS {
        work
    } else {
        SLICE_NANOS
    };
    Slice { work, sleep: SLICE_NANOS - work }
}

/// Messages sent to the limiting loop to change its behavior. `L` is the
/// type in which the caller holds a limit.
pub enum Command<L> {
    /// Hold the group to this limit from now on.
    Limit(L),
    /// Release the group and end the loop.
    Stop,
}

/// Whether `command` tells the loop to stop.
pub open spec fn stops<L>(command: Option<Command<L>>) -> bool {
    match command {
        Some(Command::Stop) => true,
        _ => false,
    }
}

/// The limit in force once `command` is taken: the one that it sets, else
/// `limit`.
pub open spec fn limit_after<L>(limit: L, command: Option<Command<L>>) -> L {
    match command {
        Some(Command::Limit(new_limit)) => new_limit,
        _ => limit,
    }
}

/// What the limiting loop does in one slice.
pub enum Tick<L> {
    /// The loop goes on.
    Run {
        /// The limit to hold the group to: the one that a command just set,
        /// else the one in force before.
        limit: L,
        /// What the group used since the last look at it.
        sample: Sample,
        /// The signals that let the group run, to send at the start of the
        /// slice.
        resume: Vec<Delivery>,
        /// The signals that hold the group, to send once its share of the
        /// slice is used up.
        suspend: Vec<Delivery>,
    },
    /// The loop ends.
    Halt {
        /// The signals that release the group, to send before the loop ends.
        resume: Vec<Delivery>,
    },
}

/// Decides what the limiting loop does in the slice that starts.
///
/// `limit` is the limit in force, `command` the command taken at the start
/// of the slice, if there was one, `table` what the system shows, and `now`
/// the time in nanoseconds on a clock of the caller. The
/// loop ends when it is told to stop and when the target is dead. Before it
/// ends, every member of the group is sent the signal to go on, so that no
/// process stays held. Else a new limit is taken over, the group is looked
/// at, and is sent the signal to go on now and the signal to hold later.
pub fn limiter_step<L>(
    group: &mut ProcessGroup,
    limit: L,
    command: Option<Command<L>>,
    table: &ProcessTable,
    now: u64,
) -> (tick: Tick<L>)
    ensures
        match tick {
            Tick::Halt { resume } => {
                &&& stops(command) || !table.spec_alive(old(group).spec_target())
                &&& *final(group) == *old(group)
                &&& resume@ == deliveries(old(group).members(), Signal::SIGCONT)
                &&& forall|pid: Pid| #[trigger]
                    old(group).members().contains(pid) ==> resume@.contains(
                        (Delivery { pid, signal: Signal::SIGCONT }),
                    )
            },
            Tick::Run { limit: next, sample, resume, suspend } => {
                &&& !stops(command) && table.spec_alive(old(group).spec_target())
                &&& next == limit_after(limit, command)
                &&& ProcessGroup::refreshed(old(group), final(group), table, now)
                &&& sample == ProcessGroup::sample_between(old(group), final(group))
                &&& sample.consumed as nat == consumed_between(
                    old(group).spec_total_time() as nat,
                    final(group).spec_total_time() as nat,
                )
                &&& sample.elapsed == elapsed_between(old(group).spec_last_update(), now)
                &&& sample.first == !old(group).spec_sampled()
                &&& final(group).spec_sampled()
                &&& resume@ == deliveries(final(group).members(), Signal::SIGCONT)
                &&& suspend@ == deliveries(final(group).members(), Signal::SIGSTOP)
            },
        },
{
    let limit: L = match command {
        Some(Command::Limit(new_limit)) => new_limit,
        Some(Command::Stop) => {
            return halt(group);
        },
        None => limit,
    };
    match group.update(table, now) {
        Ok(sample) => Tick::Run {
            limit,
            sample,
            resume: group.resume(),
            suspend: group.suspend(),
        },
        Err(_) => halt(group),
    }
}

/// Ends the loop: every member of the group is sent the signal to go on.
fn halt<L>(group: &ProcessGroup) -> (tick: Tick<L>)
    ensures
        match tick {
            Tick::Halt { resume } => {
                &&& resume@ == deliveries(group.members(), Signal::SIGCONT)
                &&& forall|pid: Pid| #[trigger]
                    group.members().contains(pid) ==> resume@.contains(
                        (Delivery { pid, signal: Signal::SIGCONT }),
                    )
            },
            Tick::Run { .. } => false,
        },
{
    let resume = group.resume();
    proof {
        assert forall|pid: Pid| #[trigger] group.members().contains(pid) implies resume@.contains(
            (Delivery { pid, signal: Signal::SIGCONT }),
        ) by {
            crate::process_group::lemma_deliveries_reach_members(
                group.members(),
                Signal::SIGCONT,
                pid,
            );
        }
    }
    Tick::Halt { resume }
}

} // verus!
