//! Limit the CPU usage of a process.
//!
//! A process, with or without the processes that descend from it, is held to
//! a share of the processor by letting it run for a part of each slice of
//! time and pausing it for the rest. This library holds what is computed for
//! that: the fields of the kernel's stat records, the parent and the CPU time
//! of a process, the processes that descend from a target, the CPU time that
//! a group has used between two looks at it, and what the limiting loop does
//! at the start of each slice.
//!
//! The library does not touch the system. Its caller reads the process table
//! and the stat records, hands them over as a
//! [`ProcessTable`](process_table::ProcessTable), and sends the signals that
//! the library asks for.

pub mod ancestry;
pub mod error;
pub mod limiter;
pub mod pid;
pub mod process_group;
pub mod process_iterator;
pub mod process_table;
pub mod stat_iterator;
pub mod text;
