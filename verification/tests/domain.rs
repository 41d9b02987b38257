//! States of requirements and attempts.

use agentharbor::{AttemptStatus, RequirementState};

const STATES: [RequirementState; 10] = [
    RequirementState::Draft,
    RequirementState::Clarifying,
    RequirementState::Ready,
    RequirementState::Planning,
    RequirementState::Executing,
    RequirementState::Integrating,
    RequirementState::Verifying,
    RequirementState::Completed,
    RequirementState::Failed,
    RequirementState::Paused,
];

#[test]
fn state_names_are_stable_and_distinct() {
    let names: Vec<&str> = STATES.iter().map(|state| state.as_str()).collect();
    assert_eq!(
        names,
        vec![
            "draft",
            "clarifying",
            "ready",
            "planning",
            "executing",
            "integrating",
            "verifying",
            "completed",
            "failed",
            "paused",
        ]
    );
}

#[test]
fn attempt_names_are_stable() {
    assert_eq!(AttemptStatus::Starting.as_str(), "starting");
    assert_eq!(AttemptStatus::Running.as_str(), "running");
    assert_eq!(AttemptStatus::Completed.as_str(), "completed");
    assert_eq!(AttemptStatus::Failed.as_str(), "failed");
    assert_eq!(AttemptStatus::Interrupted.as_str(), "interrupted");
}

#[test]
fn permitted_changes_are_these_alone() {
    let onward = [
        ("draft", "clarifying"),
        ("clarifying", "ready"),
        ("ready", "planning"),
        ("planning", "executing"),
        ("executing", "integrating"),
        ("integrating", "verifying"),
        ("verifying", "completed"),
        ("paused", "clarifying"),
        ("paused", "planning"),
        ("paused", "executing"),
    ];
    for from in STATES {
        for to in STATES {
            let expected = to == RequirementState::Failed
                || to == RequirementState::Paused
                || onward.contains(&(from.as_str(), to.as_str()));
            assert_eq!(from.permits(&to), expected, "{from:?} to {to:?}");
        }
    }
}

#[test]
fn finished_requirements_do_not_resume() {
    assert!(!RequirementState::Completed.permits(&RequirementState::Planning));
    assert!(!RequirementState::Failed.permits(&RequirementState::Clarifying));
    assert!(!RequirementState::Ready.permits(&RequirementState::Draft));
    assert!(!RequirementState::Executing.permits(&RequirementState::Completed));
}
