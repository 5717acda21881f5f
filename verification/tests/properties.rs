use coop_sched::scheduler::{Action, Scheduler};
use coop_sched::task::Task;

/// Steps the scheduler to completion with a simulated clock, collecting the
/// executed labels in order.
fn drain(s: &mut Scheduler<&'static str>) -> Vec<&'static str> {
    let mut out: Vec<&'static str> = Vec::new();
    let mut now: u64 = 0;
    loop {
        match s.step(now) {
            Action::Run(w) => out.push(w),
            Action::Wait(d) => now += d,
            Action::Promoted => {}
            Action::Done => break,
        }
    }
    out
}

#[test]
fn delayless_submissions_run_fifo() {
    let mut s: Scheduler<&'static str> = Scheduler::new();
    let labels: Vec<&'static str> = vec!["S1", "S2", "S3", "S4", "S5"];
    for w in &labels {
        s.schedule(Task::new(*w, None), 0);
    }
    assert_eq!(drain(&mut s), labels);
}

#[test]
fn expiry_order_beats_submission_order() {
    let mut s: Scheduler<&'static str> = Scheduler::new();
    s.schedule(Task::new("late", Some(3)), 0);
    s.schedule(Task::new("early", Some(1)), 0);
    assert_eq!(drain(&mut s), vec!["early", "late"]);
}

#[test]
fn equal_expiries_keep_submission_order() {
    let mut s: Scheduler<&'static str> = Scheduler::new();
    s.schedule(Task::new("first", Some(2)), 0);
    s.schedule(Task::new("second", Some(2)), 0);
    s.schedule(Task::new("sooner", Some(1)), 0);
    assert_eq!(drain(&mut s), vec!["sooner", "first", "second"]);
}

#[test]
fn zero_delay_is_already_expired() {
    let mut s: Scheduler<&'static str> = Scheduler::new();
    s.schedule(Task::new("zero", Some(0)), 7);
    // Already expired: promoted without any wait, then run.
    assert!(matches!(s.step(7), Action::Promoted));
    match s.step(7) {
        Action::Run(w) => assert_eq!(w, "zero"),
        _ => panic!("expected the promoted task to run"),
    }
    assert!(matches!(s.step(7), Action::Done));
}

#[test]
fn each_task_runs_exactly_once() {
    let mut s: Scheduler<&'static str> = Scheduler::new();
    s.schedule(Task::new("a", None), 0);
    s.schedule(Task::new("b", Some(4)), 0);
    s.schedule(Task::new("c", Some(2)), 0);
    s.schedule(Task::new("d", None), 0);
    let out = drain(&mut s);
    assert_eq!(out.len(), 4);
    for w in ["a", "b", "c", "d"] {
        assert_eq!(out.iter().filter(|x| **x == w).count(), 1);
    }
}

#[test]
fn done_exactly_when_both_collections_empty() {
    let mut s: Scheduler<&'static str> = Scheduler::new();
    assert!(s.is_idle());
    assert!(matches!(s.step(0), Action::Done));
    s.schedule(Task::new("r", None), 0);
    assert!(!s.is_idle());
    assert!(!matches!(s.step(0), Action::Done));
    s.schedule(Task::new("s", Some(5)), 0);
    // Only the sleeping collection holds a task: still not Done.
    assert!(!matches!(s.step(0), Action::Done));
    let out = drain(&mut s);
    assert_eq!(out, vec!["s"]);
    assert!(s.is_idle());
    assert!(matches!(s.step(99), Action::Done));
}

#[test]
fn run_next_pops_ready_front_only() {
    let mut s: Scheduler<&'static str> = Scheduler::new();
    s.schedule(Task::new("x", None), 0);
    s.schedule(Task::new("y", None), 0);
    s.schedule(Task::new("z", Some(10)), 0);
    assert_eq!(s.run_next(), Some("x"));
    assert_eq!(s.run_next(), Some("y"));
    // Ready is empty; the sleeping task is not touched by run_next.
    assert_eq!(s.run_next(), None);
    assert_eq!(s.sleeping_len(), 1);
}

#[test]
fn wait_is_exactly_the_remaining_delay() {
    let mut s: Scheduler<&'static str> = Scheduler::new();
    s.schedule(Task::new("w", Some(5)), 0);
    // Expiry is 0 + 5; at time 2 the remaining wait is 5 - 2 = 3.
    match s.step(2) {
        Action::Wait(d) => assert_eq!(d, 3),
        _ => panic!("expected a wait"),
    }
}

#[test]
fn delay_counts_from_submission_instant() {
    let mut s: Scheduler<&'static str> = Scheduler::new();
    // Submitted at time 10 with delay 5: absolute expiry 15.
    s.schedule(Task::new("w", Some(5)), 10);
    match s.step(11) {
        Action::Wait(d) => assert_eq!(d, 4),
        _ => panic!("expected a wait"),
    }
}

#[test]
fn lengths_track_both_collections() {
    let mut s: Scheduler<&'static str> = Scheduler::new();
    assert_eq!(s.ready_len(), 0);
    assert_eq!(s.sleeping_len(), 0);
    s.schedule(Task::new("a", None), 0);
    s.schedule(Task::new("b", Some(1)), 0);
    s.schedule(Task::new("c", Some(2)), 0);
    assert_eq!(s.ready_len(), 1);
    assert_eq!(s.sleeping_len(), 2);
}

#[test]
fn task_new_keeps_work_and_delay() {
    let t: Task<&'static str> = Task::new("payload", Some(9));
    assert_eq!(t.work, "payload");
    assert_eq!(t.delay, Some(9));
    let u: Task<&'static str> = Task::new("now", None);
    assert_eq!(u.delay, None);
}
