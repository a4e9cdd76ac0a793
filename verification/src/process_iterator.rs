//! Pick the processes out of a listing of the process table.

use vstd::prelude::*;
use crate::pid::Pid;
use crate::text::numeral_up_to;

verus! {

/// The process that an entry of the process table stands for.
///
/// An entry stands for a process where it is a directory whose name is the
/// numeral of a process identifier. Every other entry is passed over.
pub fn entry_pid(name: &str, is_dir: bool) -> (pid: Option<Pid>)
    ensures
        pid == match numeral_up_to(name@, u32::MAX as nat) {
            Some(v) => if is_dir {
                Some(Pid(v as u32))
            } else {
                None
            },
            None => None::<Pid>,
        },
{
    if !is_dir {
        return None;
    }
    Pid::from_str(name)
}

} // verus!
