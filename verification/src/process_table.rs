//! What the system showed of its processes at one moment.
//!
//! The library never looks at the system itself. Its caller lists the
//! process table, reads the stat records, probes which processes take a
//! signal, and hands over what it saw as a [`ProcessTable`].

use vstd::prelude::*;
use crate::pid::Pid;
use crate::stat_iterator::StatFile;

verus! {

/// What was seen of one process.
pub struct ProcessEntry {
    /// The process.
    pub pid: Pid,
    /// Whether the process took the signal that probes for its existence.
    pub alive: bool,
    /// The stat record of the process, if it could be read.
    pub stat: Option<StatFile>,
}

/// What was seen of the processes of the system.
pub struct ProcessTable {
    /// Whether the process table could be listed. Where it could not, the
    /// entries hold only what was asked of single processes.
    pub enumerated: bool,
    /// The processes seen. Of two entries for one process the first counts.
    pub entries: Vec<ProcessEntry>,
}

/// The first of `entries` that speaks of `pid`.
pub open spec fn entry_of(entries: Seq<ProcessEntry>, pid: Pid) -> Option<ProcessEntry>
    decreases entries.len(),
{
    if entries.len() == 0 {
        None
    } else if entries[0].pid == pid {
        Some(entries[0])
    } else {
        entry_of(entries.drop_first(), pid)
    }
}

/// Whether one of the first `upto` entries of `table` speaks of `pid`.
pub open spec fn listed_before(table: &ProcessTable, pid: Pid, upto: int) -> bool {
    exists|j: int| 0 <= j < upto && j < table.entries@.len() && (#[trigger] table.entries@[j]).pid == pid
}

impl ProcessTable {
    /// Whether the table has an entry for `pid`.
    pub open spec fn lists(&self, pid: Pid) -> bool {
        exists|i: int| 0 <= i < self.entries@.len() && (#[trigger] self.entries@[i]).pid == pid
    }

    /// The text of the stat record of `pid`, if the table holds it.
    pub open spec fn spec_stat(&self, pid: Pid) -> Option<Seq<char>> {
        match entry_of(self.entries@, pid) {
            Some(entry) => match entry.stat {
                Some(stat) => Some(stat.0@),
                None => None,
            },
            None => None,
        }
    }

    /// Whether `pid` was seen alive. A process that the table does not list
    /// was not.
    pub open spec fn spec_alive(&self, pid: Pid) -> bool {
        match entry_of(self.entries@, pid) {
            Some(entry) => entry.alive,
            None => false,
        }
    }

    /// A table without entries.
    pub fn new(enumerated: bool) -> (table: Self)
        ensures
            table.enumerated == enumerated,
            table.entries@.len() == 0,
    {
        ProcessTable { enumerated, entries: Vec::new() }
    }

    /// Adds what was seen of one process behind the entries that the table
    /// holds.
    pub fn push(&mut self, pid: Pid, alive: bool, stat: Option<StatFile>)
        ensures
            final(self).enumerated == old(self).enumerated,
            final(self).entries@ == old(self).entries@.push(ProcessEntry { pid, alive, stat }),
    {
        self.entries.push(ProcessEntry { pid, alive, stat });
    }

    /// The first entry that speaks of `pid`.
    pub fn find(&self, pid: Pid) -> (found: Option<&ProcessEntry>)
        ensures
            match found {
                Some(entry) => entry_of(self.entries@, pid) == Some(*entry),
                None => entry_of(self.entries@, pid).is_none(),
            },
            found.is_some() == self.lists(pid),
    {
        let n: usize = self.entries.len();
        let mut i: usize = 0;
        proof {
            assert(self.entries@.subrange(0, n as int) =~= self.entries@);
        }
        while i < n
            invariant
                i <= n,
                n == self.entries@.len(),
                entry_of(self.entries@, pid) == entry_of(
                    self.entries@.subrange(i as int, n as int),
                    pid,
                ),
                forall|j: int| 0 <= j < i ==> (#[trigger] self.entries@[j]).pid != pid,
            decreases n - i,
        {
            if self.entries[i].pid.0 == pid.0 {
                return Some(&self.entries[i]);
            }
            proof {
                assert(self.entries@.subrange(i as int, n as int).drop_first()
                    =~= self.entries@.subrange(i + 1, n as int));
            }
            i = i + 1;
        }
        None
    }
}

} // verus!
