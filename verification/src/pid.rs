//! Processes, named by their identifier.

use vstd::prelude::*;
use crate::ancestry::{ancestor_walk, lemma_walk_bounded_by_table, reaches, walk_lookups};
use crate::process_table::ProcessTable;
use crate::stat_iterator::record_fields;
use crate::text::{
    decimal, lemma_numeral_of_decimal, numeral_up_to, parse_u32, parse_u64, push_decimal,
};

verus! {

/// The signals that a process is sent.
#[allow(clippy::upper_case_acronyms)]
#[derive(Clone, Copy, PartialEq, Eq, Debug, Structural)]
pub enum Signal {
    /// Pause the process in its current state.
    SIGSTOP,
    /// Resume the process execution.
    SIGCONT,
    /// Check process existence.
    SIGNULL,
}

/// The number of the signal that pauses a process.
///
/// Trusted: this is the constant `libc::SIGSTOP`. Its value differs from one
/// kind of machine to another; all that is claimed is that it is positive.
#[verifier::external_body]
fn sigstop() -> (number: i32)
    ensures
        number > 0,
{
    libc::SIGSTOP
}

/// The number of the signal that lets a process go on.
///
/// Trusted: this is the constant `libc::SIGCONT`. Its value differs from one
/// kind of machine to another; all that is claimed is that it is positive.
#[verifier::external_body]
fn sigcont() -> (number: i32)
    ensures
        number > 0,
{
    libc::SIGCONT
}

impl Signal {
    /// The number by which the kernel knows the signal.
    ///
    /// The probe for the existence of a process is signal 0, and no other
    /// signal is. The numbers of the other signals are those of the C
    /// library of the machine.
    pub fn number(&self) -> (number: i32)
        ensures
            number >= 0,
            number == 0 <==> *self == Signal::SIGNULL,
    {
        self.number_given(sigstop(), sigcont())
    }

    /// The number by which the kernel knows the signal, where it knows the
    /// signal to pause as `stop` and the signal to go on as `cont`. The probe
    /// for the existence of a process is signal 0.
    pub fn number_given(&self, stop: i32, cont: i32) -> (number: i32)
        ensures
            number == match *self {
                Signal::SIGNULL => 0,
                Signal::SIGSTOP => stop,
                Signal::SIGCONT => cont,
            },
    {
        match self {
            Signal::SIGNULL => 0,
            Signal::SIGSTOP => stop,
            Signal::SIGCONT => cont,
        }
    }
}

/// A process of the system.
#[derive(Copy, Clone, PartialEq, Eq, PartialOrd, Ord, Hash, Debug, Structural)]
pub struct Pid(pub u32);

/// A signal to send to a process.
#[derive(Clone, Copy, PartialEq, Eq, Debug, Structural)]
pub struct Delivery {
    /// The process to signal.
    pub pid: Pid,
    /// The signal to send to it.
    pub signal: Signal,
}

/// The identifier of the `init` process, at which every walk towards the
/// ancestors ends.
pub const INIT: u32 = 1;

/// The position of the parent's identifier among the fields of a record.
pub const PPID_FIELD: usize = 3;

/// The position among the fields of a record of the time spent in user mode,
/// in clock ticks.
pub const UTIME_FIELD: usize = 13;

/// The position among the fields of a record of the time spent in kernel
/// mode, in clock ticks.
pub const STIME_FIELD: usize = 14;

/// The parent that a stat record names; process 0 where the record is
/// missing, too short, or names no process.
pub open spec fn record_parent(record: Option<Seq<char>>) -> Pid {
    match record {
        Some(text) => {
            let fields = record_fields(text);
            if fields.len() > PPID_FIELD {
                match numeral_up_to(fields[PPID_FIELD as int], u32::MAX as nat) {
                    Some(v) => Pid(v as u32),
                    None => Pid(0),
                }
            } else {
                Pid(0)
            }
        },
        None => Pid(0),
    }
}

/// The clock ticks of processor time that a stat record accounts for, in
/// user and kernel mode together.
///
/// This is zero where the record is missing, where it is too short to hold
/// both times, and where one of the two is no number of 64 bits.
pub open spec fn record_ticks(record: Option<Seq<char>>) -> nat {
    match record {
        Some(text) => {
            let fields = record_fields(text);
            if fields.len() > STIME_FIELD {
                match (
                    numeral_up_to(fields[UTIME_FIELD as int], u64::MAX as nat),
                    numeral_up_to(fields[STIME_FIELD as int], u64::MAX as nat),
                ) {
                    (Some(utime), Some(stime)) => utime + stime,
                    _ => 0,
                }
            } else {
                0
            }
        },
        None => 0,
    }
}

impl From<u32> for Pid {
    /// The process with the identifier `pid`.
    fn from(pid: u32) -> (r: Self) {
        Pid(pid)
    }
}

impl vstd::std_specs::convert::FromSpecImpl<u32> for Pid {
    open spec fn obeys_from_spec() -> bool {
        true
    }

    open spec fn from_spec(pid: u32) -> Self {
        Pid(pid)
    }
}

impl Pid {
    /// The process that the numeral `s` names.
    pub fn from_str(s: &str) -> (r: Option<Self>)
        ensures
            r == match numeral_up_to(s@, u32::MAX as nat) {
                Some(v) => Some(Pid(v as u32)),
                None => None::<Pid>,
            },
    {
        match parse_u32(s) {
            Some(v) => Some(Pid(v)),
            None => None,
        }
    }

    /// The numeral of the identifier, which [`Pid::from_str`] reads back as
    /// the same process.
    pub fn to_string(&self) -> (s: String)
        ensures
            s@ == decimal(self.0 as nat),
            numeral_up_to(s@, u32::MAX as nat) == Some(self.0 as nat),
    {
        let mut s = String::new();
        push_decimal(&mut s, self.0);
        proof {
            lemma_numeral_of_decimal(self.0 as nat);
            assert(s@ =~= decimal(self.0 as nat));
        }
        s
    }

    /// The parent of the process, as `table` shows it.
    pub open spec fn spec_ppid(self, table: &ProcessTable) -> Pid {
        record_parent(table.spec_stat(self))
    }

    /// The processor time of the process in clock ticks, as `table` shows
    /// it. A sum that passes the largest number of 64 bits stays there.
    pub open spec fn spec_cputime(self, table: &ProcessTable) -> nat {
        if record_ticks(table.spec_stat(self)) <= u64::MAX {
            record_ticks(table.spec_stat(self))
        } else {
            u64::MAX as nat
        }
    }

    /// Whether the process descends from `other`, as `table` shows it: the
    /// walk from the process towards its ancestors arrives at `other` within
    /// one step for each entry of the table. No process descends from itself,
    /// and none from process 0, which stands for an unknown parent.
    pub open spec fn spec_is_child_of(self, other: Pid, table: &ProcessTable) -> bool {
        self != other && other != Pid(0) && ancestor_walk(
            table,
            self,
            other,
            table.entries@.len(),
        ) == other
    }

    /// Retrieves the parent process identifier (`ppid`).
    ///
    /// This is process 0 where the table has no record of the process, or a
    /// record that names no parent.
    #[must_use]
    pub fn get_ppid(&self, table: &ProcessTable) -> (parent: Pid)
        ensures
            parent == self.spec_ppid(table),
    {
        match table.find(*self) {
            Some(entry) => match &entry.stat {
                Some(stat) => match stat.field(PPID_FIELD) {
                    Some(field) => match parse_u32(field) {
                        Some(v) => Pid(v),
                        None => Pid(0),
                    },
                    None => Pid(0),
                },
                None => Pid(0),
            },
            None => Pid(0),
        }
    }

    /// Walks from the process towards its ancestors, looking for `other`.
    ///
    /// Gives the process at which the walk stopped and the number of steps
    /// from a process to its parent that it took: at most one for each entry
    /// of the table.
    pub fn walk_towards(&self, other: Pid, table: &ProcessTable) -> (r: (Pid, usize))
        ensures
            r.0 == ancestor_walk(table, *self, other, table.entries@.len()),
            r.1 == walk_lookups(table, *self, other, table.entries@.len()),
            r.1 <= table.entries@.len(),
    {
        let n: usize = table.entries.len();
        let mut ppid: Pid = *self;
        let mut lookups: usize = 0;
        while lookups < n && ppid.0 > INIT && ppid.0 != other.0
            invariant
                lookups <= n,
                n == table.entries@.len(),
                ancestor_walk(table, ppid, other, (n - lookups) as nat) == ancestor_walk(
                    table,
                    *self,
                    other,
                    n as nat,
                ),
                lookups + walk_lookups(table, ppid, other, (n - lookups) as nat) == walk_lookups(
                    table,
                    *self,
                    other,
                    n as nat,
                ),
            decreases n - lookups,
        {
            ppid = ppid.get_ppid(table);
            lookups = lookups + 1;
        }
        (ppid, lookups)
    }

    /// Indicates whether `self` descends from `other`: whether `other` is
    /// met on the way from `self` towards its ancestors.
    ///
    /// No process descends from itself, and none from process 0.
    pub fn is_child_of(&self, other: Pid, table: &ProcessTable) -> (r: bool)
        ensures
            r == self.spec_is_child_of(other, table),
            r == (*self != other && other != Pid(0) && reaches(table, *self, other)),
            *self == other ==> !r,
    {
        let (end, _) = self.walk_towards(other, table);
        proof {
            if other != Pid(0) {
                lemma_walk_bounded_by_table(table, *self, other);
            }
        }
        self.0 != other.0 && other.0 != 0 && end.0 == other.0
    }

    /// Retrieves the current CPU time in clock ticks, the sum of the `utime`
    /// (user mode) and the `stime` (kernel mode).
    ///
    /// This is zero where the table has no record of the process, and where
    /// one of the two times is missing from the record or cannot be read.
    pub fn get_cputime(&self, table: &ProcessTable) -> (ticks: u64)
        ensures
            ticks == self.spec_cputime(table),
    {
        let stat = match table.find(*self) {
            Some(entry) => match &entry.stat {
                Some(stat) => stat,
                None => {
                    return 0;
                },
            },
            None => {
                return 0;
            },
        };
        let mut fields = stat.iter();
        let utime: u64 = match fields.nth(UTIME_FIELD) {
            Some(field) => match parse_u64(field) {
                Some(v) => v,
                None => {
                    return 0;
                },
            },
            None => {
                return 0;
            },
        };
        let stime: u64 = match fields.next() {
            Some(field) => match parse_u64(field) {
                Some(v) => v,
                None => {
                    return 0;
                },
            },
            None => {
                return 0;
            },
        };
        if utime > u64::MAX - stime {
            u64::MAX
        } else {
            utime + stime
        }
    }

    /// The delivery that sends `signal` to the process.
    pub fn kill(&self, signal: Signal) -> (delivery: Delivery)
        ensures
            delivery == (Delivery { pid: *self, signal }),
    {
        Delivery { pid: *self, signal }
    }

    /// Indicates whether the process is alive or not: whether it took the
    /// signal that probes for its existence.
    pub fn alive(&self, table: &ProcessTable) -> (r: bool)
        ensures
            r == table.spec_alive(*self),
    {
        match table.find(*self) {
            Some(entry) => entry.alive,
            None => false,
        }
    }
}

} // verus!
