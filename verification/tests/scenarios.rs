use coop_sched::scheduler::{Action, Scheduler};
use coop_sched::task::Task;

/// Steps the scheduler to completion with a simulated clock, collecting the
/// executed labels in order. `Wait` advances the clock by the requested time.
fn drive(s: &mut Scheduler<&'static str>) -> Vec<&'static str> {
    let mut out: Vec<&'static str> = Vec::new();
    let mut now: u64 = 0;
    loop {
        match s.step(now) {
            Action::Run(w) => out.push(w),
            Action::Wait(d) => now += d,
            Action::Promoted => {}
            Action::Done => break,
        }
    }
    out
}

#[test]
fn scenario_a_two_delayless_in_order() {
    let mut s: Scheduler<&'static str> = Scheduler::new();
    s.schedule(Task::new("A", None), 0);
    s.schedule(Task::new("B", None), 0);
    let out = drive(&mut s);
    for w in &out {
        println!("{}", w);
    }
    assert_eq!(out, vec!["A", "B"]);
}

#[test]
fn scenario_b_ready_before_delayed() {
    let mut s: Scheduler<&'static str> = Scheduler::new();
    s.schedule(Task::new("T1", Some(2)), 0);
    s.schedule(Task::new("T2", None), 0);
    let out = drive(&mut s);
    assert_eq!(out, vec!["T2", "T1"]);
}

#[test]
fn scenario_c_promotion_in_expiry_order() {
    let mut s: Scheduler<&'static str> = Scheduler::new();
    s.schedule(Task::new("T1", Some(1)), 0);
    s.schedule(Task::new("T2", Some(3)), 0);
    let out = drive(&mut s);
    assert_eq!(out, vec!["T1", "T2"]);
    assert!(s.is_idle());
}

#[test]
fn scenario_d_callback_resubmits_delayless() {
    let mut s: Scheduler<&'static str> = Scheduler::new();
    s.schedule(Task::new("T1", None), 0);
    let mut out: Vec<&'static str> = Vec::new();
    let mut now: u64 = 0;
    loop {
        match s.step(now) {
            Action::Run(w) => {
                // T1's callback submits a new delay-less task before returning.
                if w == "T1" {
                    s.schedule(Task::new("T2", None), now);
                }
                out.push(w);
            }
            Action::Wait(d) => now += d,
            Action::Promoted => {}
            Action::Done => break,
        }
    }
    // T2 ran immediately after T1, before the loop reported Done.
    assert_eq!(out, vec!["T1", "T2"]);
}

#[derive(Clone, Copy)]
enum Job {
    Down(usize),
    Up(usize),
}

fn run_jobs(s: &mut Scheduler<Job>) {
    let mut now: u64 = 0;
    loop {
        match s.step(now) {
            Action::Run(Job::Down(n)) => {
                if n > 0 {
                    println!("Down={}", n);
                    s.schedule(Task::new(Job::Down(n - 1), Some(2)), now);
                }
            }
            Action::Run(Job::Up(n)) => {
                if n > 0 {
                    println!("Up={}", n);
                    s.schedule(Task::new(Job::Up(n - 1), None), now);
                }
            }
            Action::Wait(d) => now += d,
            Action::Promoted => {}
            Action::Done => break,
        }
    }
}

#[test]
fn test() {
    let mut scheduler: Scheduler<Job> = Scheduler::new();
    scheduler.schedule(Task::new(Job::Down(5), None), 0);
    scheduler.schedule(Task::new(Job::Up(3), None), 0);
    run_jobs(&mut scheduler);
    assert!(scheduler.is_idle());
}
