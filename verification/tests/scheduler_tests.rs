use reminder_bot::scheduler::{Scheduler, TaskOutcome};

#[test]
fn task_fires_at_or_after_its_delay_never_before() {
    let mut s: Scheduler<u32> = Scheduler::new();
    let id = s.add_task(100, 900, 5);
    assert!(s.pop_due(99).is_none());
    assert!(s.pop_due(999).is_none());
    let t = s.pop_due(1000).expect("due at 1000");
    assert_eq!(t.id, id);
    assert_eq!(t.fire_time, 1000);
    assert_eq!(t.action, 5);
}

#[test]
fn done_task_never_fires_again() {
    let mut s: Scheduler<u32> = Scheduler::new();
    let _ = s.add_task(0, 10, 1);
    let t = s.pop_due(10).expect("due");
    s.finish(t, TaskOutcome::Done);
    assert!(s.pop_due(u64::MAX).is_none());
}

#[test]
fn repeating_task_fires_again_at_or_after_its_new_time() {
    let mut s: Scheduler<u32> = Scheduler::new();
    let id = s.add_task(0, 10, 1);
    let t = s.pop_due(10).expect("due");
    s.finish(t, TaskOutcome::RepeatAt(25));
    assert!(s.pop_due(24).is_none());
    let t = s.pop_due(25).expect("due again");
    assert_eq!(t.id, id);
    assert_eq!(t.fire_time, 25);
}

#[test]
fn repeat_time_already_past_is_due_at_once() {
    let mut s: Scheduler<u32> = Scheduler::new();
    let _ = s.add_task(0, 10, 1);
    let t = s.pop_due(50).expect("due");
    s.finish(t, TaskOutcome::RepeatAt(20));
    assert!(s.pop_due(50).is_some());
}

#[test]
fn simultaneously_due_tasks_each_fire_exactly_once() {
    let mut s: Scheduler<u32> = Scheduler::new();
    let _ = s.add_task(0, 10, 1);
    let _ = s.add_task(0, 10, 2);
    let a = s.pop_due(10).expect("first due");
    let b = s.pop_due(10).expect("second due");
    assert_ne!(a.id, b.id);
    assert!(s.pop_due(10).is_none());
}
