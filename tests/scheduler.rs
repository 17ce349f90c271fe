use std::collections::VecDeque;
use step_runner::runner::{PollAction, StepRunner};
use step_runner::status::{Outcome, Status};

fn ok(output: &str) -> Outcome {
    Outcome { output: Some(output.to_string()), error: None }
}

fn fail(error: &str) -> Outcome {
    Outcome { output: None, error: Some(error.to_string()) }
}

/// Runs every step to completion on one thread: handed-out steps are run
/// in the order they were handed out, notifications in the order sent.
/// Returns the final statuses and the order in which actions ran.
fn drive(deps: Vec<Vec<usize>>, action: &dyn Fn(usize) -> Outcome) -> (Vec<Status>, Vec<usize>) {
    let n = deps.len();
    let mut runner = StepRunner::new(&deps).expect("valid dependencies");
    let mut queue: VecDeque<usize> = VecDeque::new();
    let mut notes: VecDeque<usize> = VecDeque::new();
    let mut ran = Vec::new();
    for (i, a) in runner.start().into_iter().enumerate() {
        match a {
            PollAction::Dispatch => queue.push_back(i),
            PollAction::DependencyFailed => notes.push_back(i),
            PollAction::Idle => {}
        }
    }
    let mut received = 0;
    while received < n {
        if let Some(i) = queue.pop_front() {
            ran.push(i);
            assert!(runner.complete(i, action(i)));
            notes.push_back(i);
            continue;
        }
        let finished = notes.pop_front().expect("a notification is pending");
        received += 1;
        for (m, a) in runner.on_notification(finished) {
            match a {
                PollAction::Dispatch => queue.push_back(m),
                PollAction::DependencyFailed => notes.push_back(m),
                PollAction::Idle => {}
            }
        }
    }
    (runner.steps, ran)
}

fn error_of(s: &Status) -> Option<String> {
    match s {
        Status::Completed(o) => o.error.clone(),
        _ => panic!("step not completed"),
    }
}

fn output_of(s: &Status) -> Option<String> {
    match s {
        Status::Completed(o) => o.output.clone(),
        _ => panic!("step not completed"),
    }
}

#[test]
fn scenario_three_steps_and_failed_dependency() {
    // A; B after A; C after A fails with "boom"; D after C
    let deps = vec![vec![], vec![0], vec![0], vec![2]];
    let (steps, ran) = drive(deps, &|i| match i {
        0 => ok("ok"),
        1 => ok(""),
        2 => fail("boom"),
        _ => ok("must not run"),
    });
    assert_eq!(output_of(&steps[0]), Some("ok".to_string()));
    assert_eq!(error_of(&steps[0]), None);
    assert_eq!(error_of(&steps[1]), None);
    assert_eq!(error_of(&steps[2]), Some("boom".to_string()));
    assert_eq!(error_of(&steps[3]), Some("Dependency not met".to_string()));
    assert!(!ran.contains(&3));
}

#[test]
fn every_step_completes_in_a_diamond() {
    let deps = vec![vec![], vec![0], vec![0], vec![1, 2], vec![]];
    let (steps, ran) = drive(deps, &|_| ok("x"));
    assert_eq!(steps.len(), 5);
    assert!(steps.iter().all(|s| s.is_completed()));
    assert_eq!(ran.len(), 5);
}

#[test]
fn failure_propagates_down_a_chain() {
    let deps = vec![vec![], vec![0], vec![1], vec![2]];
    let (steps, ran) = drive(deps, &|_| fail("down"));
    assert_eq!(ran, vec![0]);
    assert_eq!(error_of(&steps[0]), Some("down".to_string()));
    for s in &steps[1..] {
        assert_eq!(error_of(s), Some("Dependency not met".to_string()));
    }
}

#[test]
fn each_action_runs_at_most_once() {
    let deps = vec![vec![], vec![], vec![0, 1], vec![0, 1, 2], vec![2]];
    let (_, ran) = drive(deps, &|_| ok(""));
    let mut counts = vec![0; 5];
    for i in ran {
        counts[i] += 1;
    }
    assert_eq!(counts, vec![1, 1, 1, 1, 1]);
}

#[test]
fn dependents_run_after_their_dependencies() {
    let deps = vec![vec![3], vec![0], vec![], vec![2], vec![1, 2]];
    let (_, ran) = drive(deps.clone(), &|_| ok(""));
    let pos = |i: usize| ran.iter().position(|&x| x == i).unwrap();
    for (s, ds) in deps.iter().enumerate() {
        for &d in ds {
            assert!(pos(d) < pos(s));
        }
    }
}

#[test]
fn independent_steps_are_handed_out_together() {
    let mut runner = StepRunner::new(&vec![vec![], vec![], vec![0]]).unwrap();
    let actions = runner.start();
    assert_eq!(actions, vec![PollAction::Dispatch, PollAction::Dispatch, PollAction::Idle]);
    assert!(matches!(runner.steps[0], Status::InProgress));
    assert!(matches!(runner.steps[1], Status::InProgress));
    assert!(matches!(runner.steps[2], Status::Outstanding));
}

#[test]
fn repeated_poll_with_unmet_dependencies_changes_nothing() {
    let mut runner = StepRunner::new(&vec![vec![], vec![0]]).unwrap();
    for _ in 0..3 {
        assert_eq!(runner.poll(1), PollAction::Idle);
        assert!(matches!(runner.steps[1], Status::Outstanding));
    }
    assert_eq!(runner.poll(0), PollAction::Dispatch);
    for _ in 0..3 {
        assert_eq!(runner.poll(0), PollAction::Idle);
        assert_eq!(runner.poll(1), PollAction::Idle);
    }
    assert!(matches!(runner.steps[0], Status::InProgress));
    assert!(matches!(runner.steps[1], Status::Outstanding));
}

#[test]
fn poll_of_completed_step_is_idle() {
    let mut runner = StepRunner::new(&vec![vec![]]).unwrap();
    assert_eq!(runner.poll(0), PollAction::Dispatch);
    assert!(runner.complete(0, ok("done")));
    assert_eq!(runner.poll(0), PollAction::Idle);
    assert_eq!(output_of(&runner.steps[0]), Some("done".to_string()));
}

#[test]
fn complete_refuses_a_step_not_running() {
    let mut runner = StepRunner::new(&vec![vec![], vec![0]]).unwrap();
    assert!(!runner.complete(1, ok("")));
    assert!(!runner.complete(7, ok("")));
    assert!(matches!(runner.steps[1], Status::Outstanding));
}

#[test]
fn unknown_dependency_index_is_refused() {
    assert!(StepRunner::new(&vec![vec![], vec![2]]).is_none());
    assert!(StepRunner::new(&vec![vec![], vec![1]]).is_some());
    assert!(StepRunner::new(&vec![]).is_some());
}

#[test]
fn notification_polls_only_dependents() {
    let mut runner = StepRunner::new(&vec![vec![], vec![0], vec![], vec![0, 2]]).unwrap();
    runner.start();
    assert!(runner.complete(0, fail("no")));
    let mut r = runner.on_notification(0);
    r.sort_by_key(|p| p.0);
    assert_eq!(r.len(), 2);
    assert_eq!(r[0], (1, PollAction::DependencyFailed));
    assert_eq!(r[1].0, 3);
    assert_eq!(r[1].1, PollAction::DependencyFailed);
    assert!(matches!(runner.steps[2], Status::InProgress));
}

#[test]
fn notification_hands_out_a_ready_dependent() {
    let mut runner = StepRunner::new(&vec![vec![], vec![0], vec![0, 1]]).unwrap();
    runner.start();
    assert!(runner.complete(0, ok("")));
    let r = runner.on_notification(0);
    assert!(r.contains(&(1, PollAction::Dispatch)));
    assert!(r.contains(&(2, PollAction::Idle)));
}
