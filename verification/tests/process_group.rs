use cpulimiter::error::Error;
use cpulimiter::pid::{Delivery, Pid, Signal};
use cpulimiter::process_group::{ChildrenMode, ProcessGroup, Sample};
use cpulimiter::process_table::ProcessTable;
use cpulimiter::stat_iterator::StatFile;

fn stat_of(pid: u32, ppid: u32, ticks: u64) -> Option<StatFile> {
    Some(StatFile(format!(
        "{} (worker {}) R {} {} {} 0 -1 4194304 90 0 0 0 {} 0 0 0 20 0 1 0 7545849\n",
        pid, pid, ppid, pid, pid, ticks
    )))
}

fn table_of(enumerated: bool, processes: &[(u32, u32, u64)]) -> ProcessTable {
    let mut table = ProcessTable::new(enumerated);
    for (pid, ppid, ticks) in processes {
        table.push(Pid(*pid), true, stat_of(*pid, *ppid, *ticks));
    }
    table
}

fn sorted(pids: &Vec<Pid>) -> Vec<u32> {
    let mut ids: Vec<u32> = pids.iter().map(|p| p.0).collect();
    ids.sort();
    ids
}

#[test]
fn children_mode_defaults_to_the_target_alone() {
    assert_eq!(ChildrenMode::default(), ChildrenMode::Exclude);
}

#[test]
fn new_group_of_a_dead_target_is_refused() {
    let mut table = table_of(true, &[(1, 0, 5)]);
    table.push(Pid(50), false, stat_of(50, 1, 3));
    assert!(matches!(ProcessGroup::new(Pid(50), ChildrenMode::Exclude, &table, 1_000), Err(Error::DeadTarget)));
    assert!(matches!(ProcessGroup::new(Pid(77), ChildrenMode::Include, &table, 1_000), Err(Error::DeadTarget)));
}

#[test]
fn new_group_takes_the_baseline() {
    let table = table_of(true, &[(1, 0, 5), (50, 1, 40), (60, 50, 2), (70, 60, 1), (80, 1, 9)]);
    let alone = ProcessGroup::new(Pid(50), ChildrenMode::Exclude, &table, 1_000).unwrap();
    assert_eq!(alone.target(), Pid(50));
    assert_eq!(alone.total_time(), 40);
    assert!(alone.children().is_empty());
    let family = ProcessGroup::new(Pid(50), ChildrenMode::Include, &table, 1_000).unwrap();
    assert_eq!(family.target(), Pid(50));
    assert_eq!(family.total_time(), 43);
    assert_eq!(sorted(family.children()), vec![60, 70]);
}

#[test]
fn update_gives_the_time_used_since_the_last_look() {
    let first = table_of(true, &[(1, 0, 5), (50, 1, 40)]);
    let second = table_of(true, &[(1, 0, 6), (50, 1, 47)]);
    let mut group = ProcessGroup::new(Pid(50), ChildrenMode::Exclude, &first, 1_000).unwrap();
    assert_eq!(group.last_update(), 1_000);
    assert_eq!(group.update(&second, 101_000), Ok(Sample { consumed: 7, elapsed: 100_000, first: true }));
    assert_eq!(group.total_time(), 47);
    assert_eq!(group.last_update(), 101_000);
    assert_eq!(group.update(&second, 101_000), Ok(Sample { consumed: 0, elapsed: 0, first: false }));
}

#[test]
fn update_replaces_the_children() {
    let first = table_of(true, &[(1, 0, 5), (50, 1, 40), (60, 50, 2), (70, 60, 1)]);
    let second = table_of(true, &[(1, 0, 5), (50, 1, 41), (60, 50, 4), (90, 50, 3), (95, 90, 1)]);
    let mut group = ProcessGroup::new(Pid(50), ChildrenMode::Include, &first, 1_000).unwrap();
    assert_eq!(sorted(group.children()), vec![60, 70]);
    assert_eq!(group.update(&second, 3_000), Ok(Sample { consumed: 6, elapsed: 2_000, first: true }));
    assert_eq!(sorted(group.children()), vec![60, 90, 95]);
    assert_eq!(group.total_time(), 49);
}

#[test]
fn child_that_exited_is_gone_with_the_next_look() {
    let first = table_of(true, &[(50, 1, 40), (60, 50, 2), (70, 50, 1)]);
    let second = table_of(true, &[(50, 1, 40), (70, 50, 1)]);
    let mut group = ProcessGroup::new(Pid(50), ChildrenMode::Include, &first, 1_000).unwrap();
    assert_eq!(sorted(group.children()), vec![60, 70]);
    group.update(&second, 2_000).unwrap();
    assert_eq!(sorted(group.children()), vec![70]);
    let signalled: Vec<Pid> = group.suspend().iter().map(|d| d.pid).collect();
    assert!(!signalled.contains(&Pid(60)));
}

#[test]
fn total_that_fell_counts_as_nothing_used() {
    let first = table_of(true, &[(50, 1, 40), (60, 50, 20)]);
    let second = table_of(true, &[(50, 1, 41)]);
    let mut group = ProcessGroup::new(Pid(50), ChildrenMode::Include, &first, 1_000).unwrap();
    assert_eq!(group.total_time(), 60);
    assert_eq!(group.update(&second, 2_000), Ok(Sample { consumed: 0, elapsed: 1_000, first: true }));
    assert_eq!(group.total_time(), 41);
}

#[test]
fn update_of_a_dead_target_changes_nothing() {
    let first = table_of(true, &[(50, 1, 40), (60, 50, 2)]);
    let mut second = ProcessTable::new(true);
    second.push(Pid(50), false, None);
    second.push(Pid(61), true, stat_of(61, 50, 2));
    let mut group = ProcessGroup::new(Pid(50), ChildrenMode::Include, &first, 1_000).unwrap();
    assert_eq!(group.update(&second, 2_000), Err(Error::DeadTarget));
    assert_eq!(group.total_time(), 42);
    assert_eq!(group.last_update(), 1_000);
    assert_eq!(sorted(group.children()), vec![60]);
    assert_eq!(group.update(&ProcessTable::new(true), 3_000), Err(Error::DeadTarget));
}

#[test]
fn table_that_could_not_be_listed_leaves_the_children() {
    let first = table_of(true, &[(50, 1, 40), (60, 50, 20)]);
    let second = table_of(false, &[(50, 1, 45), (70, 50, 9)]);
    let mut group = ProcessGroup::new(Pid(50), ChildrenMode::Include, &first, 1_000).unwrap();
    assert_eq!(group.update(&second, 2_000), Ok(Sample { consumed: 0, elapsed: 1_000, first: true }));
    assert_eq!(group.total_time(), 45);
    assert_eq!(sorted(group.children()), vec![60]);
}

#[test]
fn process_listed_twice_is_one_child() {
    let table = table_of(true, &[(50, 1, 40), (60, 50, 2), (60, 50, 2), (50, 1, 40)]);
    let group = ProcessGroup::new(Pid(50), ChildrenMode::Include, &table, 1_000).unwrap();
    assert_eq!(sorted(group.children()), vec![60]);
    assert_eq!(group.total_time(), 42);
}

#[test]
fn group_of_the_target_alone_has_no_children() {
    let table = table_of(true, &[(50, 1, 40), (60, 50, 2)]);
    let mut group = ProcessGroup::new(Pid(50), ChildrenMode::Exclude, &table, 1_000).unwrap();
    group.update(&table, 2_000).unwrap();
    assert!(group.children().is_empty());
    assert_eq!(group.total_time(), 40);
    assert_eq!(group.resume(), vec![Delivery { pid: Pid(50), signal: Signal::SIGCONT }]);
}

#[test]
fn signals_go_to_the_target_and_to_each_child() {
    let table = table_of(true, &[(50, 1, 40), (60, 50, 2), (70, 60, 1)]);
    let group = ProcessGroup::new(Pid(50), ChildrenMode::Include, &table, 1_000).unwrap();
    assert_eq!(
        group.suspend(),
        vec![
            Delivery { pid: Pid(50), signal: Signal::SIGSTOP },
            Delivery { pid: Pid(60), signal: Signal::SIGSTOP },
            Delivery { pid: Pid(70), signal: Signal::SIGSTOP },
        ]
    );
    assert_eq!(
        group.resume(),
        vec![
            Delivery { pid: Pid(50), signal: Signal::SIGCONT },
            Delivery { pid: Pid(60), signal: Signal::SIGCONT },
            Delivery { pid: Pid(70), signal: Signal::SIGCONT },
        ]
    );
    assert_eq!(group.kill(Signal::SIGNULL).len(), 3);
}

#[test]
fn children_are_held_in_the_order_of_the_table() {
    let table = table_of(true, &[(90, 50, 1), (50, 1, 40), (60, 50, 2), (90, 50, 1), (70, 60, 1)]);
    let group = ProcessGroup::new(Pid(50), ChildrenMode::Include, &table, 1_000).unwrap();
    assert_eq!(group.children(), &vec![Pid(90), Pid(60), Pid(70)]);
    assert_eq!(group.children_mode(), ChildrenMode::Include);
}

#[test]
fn clock_that_went_back_counts_as_no_time() {
    let table = table_of(true, &[(50, 1, 40)]);
    let mut group = ProcessGroup::new(Pid(50), ChildrenMode::Exclude, &table, 5_000).unwrap();
    assert_eq!(group.update(&table, 4_000), Ok(Sample { consumed: 0, elapsed: 0, first: true }));
    assert_eq!(group.last_update(), 4_000);
    assert_eq!(group.update(&table, u64::MAX), Ok(Sample { consumed: 0, elapsed: u64::MAX - 4_000, first: false }));
}

#[test]
fn first_sample_is_marked() {
    let table = table_of(true, &[(50, 1, 40)]);
    let mut group = ProcessGroup::new(Pid(50), ChildrenMode::Exclude, &table, 0).unwrap();
    assert!(!group.sampled());
    assert!(group.update(&table, 10).unwrap().first);
    assert!(group.sampled());
    assert!(!group.update(&table, 20).unwrap().first);
    assert!(!group.update(&table, 30).unwrap().first);
    let gone = ProcessTable::new(true);
    let mut other = ProcessGroup::new(Pid(50), ChildrenMode::Exclude, &table, 0).unwrap();
    assert_eq!(other.update(&gone, 10), Err(Error::DeadTarget));
    assert!(!other.sampled());
    assert!(other.update(&table, 20).unwrap().first);
}
