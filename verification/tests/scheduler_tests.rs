use semantic_editor::scheduler::{PollOutcome, Scheduler};

#[test]
fn a_task_ready_on_its_third_trigger_leaves_after_exactly_three_steps() {
    let mut s = Scheduler::new();
    let (id, microtask) = s.schedule();
    assert_eq!(microtask.task_id, id);
    assert!(s.contains(id));

    // First two triggers find the task not ready: it stays.
    assert!(!s.run_step(id, PollOutcome::NotReady));
    assert!(s.contains(id));
    assert!(!s.run_step(id, PollOutcome::NotReady));
    assert!(s.contains(id));

    // The third trigger finds it ready: it is removed, and only now.
    assert!(s.run_step(id, PollOutcome::Ready));
    assert!(!s.contains(id));
    assert_eq!(s.task_count(), 0);
}

#[test]
fn a_failed_task_also_leaves_the_table() {
    let mut s = Scheduler::new();
    let (id, _) = s.schedule();
    assert!(s.run_step(id, PollOutcome::Failed));
    assert!(!s.contains(id));
}

#[test]
fn one_task_finishing_leaves_the_others_alone() {
    let mut s = Scheduler::new();
    let (a, _) = s.schedule();
    let (b, _) = s.schedule();
    let (c, _) = s.schedule();
    assert_ne!(a, b);
    assert_ne!(b, c);
    assert_eq!(s.task_count(), 3);

    assert!(s.run_step(b, PollOutcome::Ready));
    assert!(s.contains(a));
    assert!(!s.contains(b));
    assert!(s.contains(c));
    assert_eq!(s.task_count(), 2);
}

#[test]
fn a_wake_names_the_task_it_wakes() {
    let mut s = Scheduler::new();
    let (id, _) = s.schedule();
    let microtask = s.notify(id);
    assert_eq!(microtask.task_id, id);
}
