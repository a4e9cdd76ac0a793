use cpulimiter::error::Error;
use cpulimiter::limiter::{
    divide_slice, limiter_step, Command, Slice, Tick, SLICE_MILLIS, SLICE_NANOS,
};
use cpulimiter::pid::{Delivery, Pid, Signal};
use cpulimiter::process_group::{ChildrenMode, ProcessGroup, Sample};
use cpulimiter::process_iterator::entry_pid;
use cpulimiter::process_table::ProcessTable;
use cpulimiter::stat_iterator::StatFile;

fn snapshot(processes: &[(u32, u32, u64, bool)]) -> ProcessTable {
    let mut table = ProcessTable::new(true);
    for (pid, ppid, ticks, alive) in processes {
        let text = format!("{} (job) R {} 0 0 0 0 0 0 0 0 0 {} 0 0 0\n", pid, ppid, ticks);
        table.push(Pid(*pid), *alive, Some(StatFile(text)));
    }
    table
}

fn resumes(pids: &[u32]) -> Vec<Delivery> {
    pids.iter().map(|p| Delivery { pid: Pid(*p), signal: Signal::SIGCONT }).collect()
}

fn suspends(pids: &[u32]) -> Vec<Delivery> {
    pids.iter().map(|p| Delivery { pid: Pid(*p), signal: Signal::SIGSTOP }).collect()
}

#[test]
fn slice_is_a_tenth_of_a_second() {
    assert_eq!(SLICE_MILLIS, 100);
    assert_eq!(SLICE_NANOS, 100_000_000);
}

#[test]
fn group_runs_for_no_longer_than_the_slice() {
    assert_eq!(divide_slice(0), Slice { work: 0, sleep: 100_000_000 });
    assert_eq!(divide_slice(25_000_000), Slice { work: 25_000_000, sleep: 75_000_000 });
    assert_eq!(divide_slice(100_000_000), Slice { work: 100_000_000, sleep: 0 });
    assert_eq!(divide_slice(100_000_001), Slice { work: 100_000_000, sleep: 0 });
    assert_eq!(divide_slice(u64::MAX), Slice { work: 100_000_000, sleep: 0 });
}

#[test]
fn step_looks_at_the_group_and_schedules_the_slice() {
    let first = snapshot(&[(50, 1, 40, true), (60, 50, 2, true)]);
    let second = snapshot(&[(50, 1, 44, true), (60, 50, 3, true), (70, 60, 1, true)]);
    let mut group = ProcessGroup::new(Pid(50), ChildrenMode::Include, &first, 0).unwrap();
    match limiter_step(&mut group, 0.25, None, &second, 100_000_000) {
        Tick::Run { limit, sample, resume, suspend } => {
            assert_eq!(limit, 0.25);
            assert_eq!(sample, Sample { consumed: 6, elapsed: 100_000_000, first: true });
            assert_eq!(resume, resumes(&[50, 60, 70]));
            assert_eq!(suspend, suspends(&[50, 60, 70]));
        }
        Tick::Halt { .. } => panic!("the loop ended"),
    }
    assert_eq!(group.total_time(), 48);
}

#[test]
fn new_limit_is_taken_over() {
    let first = snapshot(&[(50, 1, 40, true)]);
    let mut group = ProcessGroup::new(Pid(50), ChildrenMode::Exclude, &first, 0).unwrap();
    match limiter_step(&mut group, 10u32, Some(Command::Limit(42)), &first, 100_000_000) {
        Tick::Run { limit, sample, resume, suspend } => {
            assert_eq!(limit, 42);
            assert_eq!(sample, Sample { consumed: 0, elapsed: 100_000_000, first: true });
            assert_eq!(resume, resumes(&[50]));
            assert_eq!(suspend, suspends(&[50]));
        }
        Tick::Halt { .. } => panic!("the loop ended"),
    }
    match limiter_step(&mut group, 42u32, None, &first, 100_000_000) {
        Tick::Run { limit, .. } => assert_eq!(limit, 42),
        Tick::Halt { .. } => panic!("the loop ended"),
    }
}

#[test]
fn stop_releases_every_member() {
    let first = snapshot(&[(50, 1, 40, true), (60, 50, 2, true), (70, 60, 2, true)]);
    let mut group = ProcessGroup::new(Pid(50), ChildrenMode::Include, &first, 0).unwrap();
    match limiter_step(&mut group, 10u32, Some(Command::Stop), &first, 100_000_000) {
        Tick::Halt { resume } => assert_eq!(resume, resumes(&[50, 60, 70])),
        Tick::Run { .. } => panic!("the loop went on"),
    }
}

#[test]
fn stop_releases_every_member_of_a_dead_target() {
    let first = snapshot(&[(50, 1, 40, true), (60, 50, 2, true), (70, 60, 2, true)]);
    let second = snapshot(&[(50, 1, 40, false), (60, 50, 2, true)]);
    let mut group = ProcessGroup::new(Pid(50), ChildrenMode::Include, &first, 0).unwrap();
    match limiter_step(&mut group, 10u32, Some(Command::Stop), &second, 100_000_000) {
        Tick::Halt { resume } => assert_eq!(resume, resumes(&[50, 60, 70])),
        Tick::Run { .. } => panic!("the loop went on"),
    }
    assert_eq!(group.total_time(), 44);
}

#[test]
fn dead_target_ends_the_loop_and_releases_every_member() {
    let first = snapshot(&[(50, 1, 40, true), (60, 50, 2, true)]);
    let second = snapshot(&[(60, 50, 9, true)]);
    let mut group = ProcessGroup::new(Pid(50), ChildrenMode::Include, &first, 0).unwrap();
    match limiter_step(&mut group, 10u32, Some(Command::Limit(20)), &second, 100_000_000) {
        Tick::Halt { resume } => assert_eq!(resume, resumes(&[50, 60])),
        Tick::Run { .. } => panic!("the loop went on"),
    }
    assert_eq!(group.total_time(), 42);
    assert_eq!(group.last_update(), 0);
    assert_eq!(group.update(&second, 5), Err(Error::DeadTarget));
}

#[test]
fn entries_of_the_process_table() {
    assert_eq!(entry_pid("1048", true), Some(Pid(1048)));
    assert_eq!(entry_pid("1", true), Some(Pid(1)));
    assert_eq!(entry_pid("1048", false), None);
    assert_eq!(entry_pid("self", true), None);
    assert_eq!(entry_pid("cpuinfo", false), None);
    assert_eq!(entry_pid("", true), None);
    assert_eq!(entry_pid("4294967296", true), None);
}

#[test]
fn failures_in_words() {
    assert_eq!(Error::DeadTarget.message(), "The target process is dead");
    assert_eq!(Error::Spawn.message(), "Couldn't spawn the limiting thread");
    assert_eq!(Error::Send.message(), "Couldn't send command to the limiting thread");
}
