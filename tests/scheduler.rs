use taskflow::scheduler::{Outcome, Scheduler};
use taskflow::task::{Executable, Priority, SimpleTask, TaskError};

/// A task that applies the duration policy without waiting.
struct Probe {
    task: SimpleTask,
}

impl Executable for Probe {
    fn execute(&self) -> Result<(), TaskError> {
        self.task.check_duration()
    }

    fn get_name(&self) -> String {
        self.task.get_name()
    }
}

fn probe(name: &str, secs: u64) -> Probe {
    Probe { task: SimpleTask::new(name.to_string(), secs) }
}

fn names(outcomes: &[Outcome<Probe>]) -> Vec<String> {
    outcomes.iter().map(|o| o.task.get_name()).collect()
}

fn rank_of(p: Priority) -> u8 {
    p.rank()
}

#[test]
fn scenario_mixed_classes() {
    let mut s = Scheduler::new();
    s.add_task(Priority::High, probe("A", 2));
    s.add_task(Priority::Low, probe("B", 3));
    s.add_task(Priority::Medium, probe("C", 1));
    s.add_task(Priority::High, probe("D", 20));
    let out = s.run_all();
    assert_eq!(out.len(), 4);
    let prios: Vec<Priority> = out.iter().map(|o| o.priority).collect();
    assert_eq!(prios, vec![Priority::High, Priority::High, Priority::Medium, Priority::Low]);
    assert_eq!(names(&out), vec!["D", "A", "C", "B"]);
    for o in &out {
        if o.task.get_name() == "D" {
            assert!(matches!(o.result, Err(TaskError::ExecutionError(_))));
        } else {
            assert_eq!(o.result, Ok(()));
        }
    }
}

#[test]
fn drain_order_is_by_priority() {
    let mut s = Scheduler::new();
    let classes = [
        Priority::Low,
        Priority::High,
        Priority::Medium,
        Priority::Low,
        Priority::High,
        Priority::Medium,
        Priority::Medium,
    ];
    for (i, p) in classes.iter().enumerate() {
        s.add_task(*p, probe(&format!("t{}", i), 1));
    }
    let mut drained = Vec::new();
    while let Some((p, _)) = s.next_task() {
        drained.push(p);
    }
    assert_eq!(drained.len(), classes.len());
    for w in drained.windows(2) {
        assert!(rank_of(w[0]) <= rank_of(w[1]));
    }
    assert!(s.is_empty());
}

#[test]
fn run_executes_each_entry_once() {
    let mut s = Scheduler::new();
    let mut added = Vec::new();
    for i in 0..12u64 {
        let p = match i % 3 {
            0 => Priority::Low,
            1 => Priority::High,
            _ => Priority::Medium,
        };
        let name = format!("job {}", i);
        added.push(name.clone());
        s.add_task(p, probe(&name, i));
    }
    assert_eq!(s.len(), 12);
    let out = s.run_all();
    assert_eq!(out.len(), 12);
    let mut got = names(&out);
    got.sort();
    added.sort();
    assert_eq!(got, added);
    let failed = out.iter().filter(|o| o.result.is_err()).count();
    assert_eq!(failed, 6);
}

#[test]
fn equal_names_are_kept_apart() {
    let mut s = Scheduler::new();
    s.add_task(Priority::Medium, probe("same", 1));
    s.add_task(Priority::Medium, probe("same", 9));
    let out = s.run_all();
    assert_eq!(names(&out), vec!["same", "same"]);
    assert!(out[0].result.is_err());
    assert!(out[1].result.is_ok());
}

#[test]
fn latest_added_runs_first_within_class() {
    let mut s = Scheduler::new();
    s.add_task(Priority::Medium, probe("m1", 1));
    s.add_task(Priority::High, probe("h1", 1));
    s.add_task(Priority::Medium, probe("m2", 1));
    s.add_task(Priority::High, probe("h2", 1));
    s.add_task(Priority::Medium, probe("m3", 1));
    let out = s.run_all();
    assert_eq!(names(&out), vec!["h2", "h1", "m3", "m2", "m1"]);
}

#[test]
fn empty_scheduler_runs_nothing() {
    let mut s: Scheduler<Probe> = Scheduler::new();
    assert!(s.is_empty());
    assert_eq!(s.len(), 0);
    assert!(s.next_task().is_none());
    let out = s.run_all();
    assert!(out.is_empty());
}

#[test]
fn next_task_takes_most_urgent() {
    let mut s = Scheduler::new();
    s.add_task(Priority::Low, 1u32);
    s.add_task(Priority::High, 2u32);
    s.add_task(Priority::Medium, 3u32);
    assert_eq!(s.len(), 3);
    assert_eq!(s.next_task(), Some((Priority::High, 2u32)));
    assert_eq!(s.next_task(), Some((Priority::Medium, 3u32)));
    assert_eq!(s.next_task(), Some((Priority::Low, 1u32)));
    assert_eq!(s.next_task(), None);
}

#[test]
fn many_adds_are_all_run() {
    let mut s = Scheduler::new();
    for i in 0..200u64 {
        let p = if i % 7 == 0 { Priority::High } else if i % 2 == 0 { Priority::Medium } else { Priority::Low };
        s.add_task(p, probe(&format!("p{}", i), i % 6));
    }
    let out = s.run_all();
    assert_eq!(out.len(), 200);
    assert!(out.iter().all(|o| o.result.is_ok()));
}
