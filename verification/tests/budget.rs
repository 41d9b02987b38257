//! Token budgets.

use agentharbor::{BudgetAssessment, ContextBudgeter, ModelBudget, OrchestratorError};

fn budget(context_window: u64, reserved_output: u64, safety_margin: u64, percent: u8) -> ModelBudget {
    ModelBudget { context_window, reserved_output, safety_margin, soft_threshold_percent: percent }
}

fn refusal<T>(result: Result<T, OrchestratorError>) -> String {
    match result {
        Err(OrchestratorError::InvalidInput(message)) => message,
        Err(other) => panic!("another error: {}", other.message()),
        Ok(_) => panic!("accepted"),
    }
}

#[test]
fn budget_triggers_early() {
    let b = ModelBudget {
        context_window: 100_000,
        reserved_output: 10_000,
        safety_margin: 10_000,
        soft_threshold_percent: 75,
    }
    .assess(60_000)
    .unwrap();
    assert_eq!(b.soft_limit, 60_000);
    assert!(b.checkpoint_required)
}

#[test]
fn assessment_states_all_four_numbers() {
    assert_eq!(
        budget(100_000, 10_000, 10_000, 75).assess(59_999).unwrap(),
        BudgetAssessment {
            usable_tokens: 80_000,
            soft_limit: 60_000,
            consumed_tokens: 59_999,
            checkpoint_required: false,
        }
    );
    assert_eq!(budget(101, 0, 0, 50).assess(50).unwrap().soft_limit, 50);
}

#[test]
fn reserves_may_use_up_the_window() {
    let a = budget(10, 4, 6, 100).assess(0).unwrap();
    assert_eq!(a.usable_tokens, 0);
    assert_eq!(a.soft_limit, 0);
    assert!(a.checkpoint_required);
}

#[test]
fn soft_limit_saturates_before_it_is_divided() {
    let a = budget(u64::MAX, 0, 0, 100).assess(0).unwrap();
    assert_eq!(a.usable_tokens, u64::MAX);
    assert_eq!(a.soft_limit, u64::MAX / 100);
    let product = (u64::MAX / 50) as u128 * 50;
    assert!(product <= u64::MAX as u128);
    let b = budget(u64::MAX / 50, 0, 0, 50).assess(0).unwrap();
    assert_eq!(b.soft_limit as u128, product / 100);
}

#[test]
fn soft_limit_stays_within_the_usable_tokens() {
    for percent in 1..=100u8 {
        let a = budget(1_000_003, 17, 19, percent).assess(1_000_003).unwrap();
        assert!(a.soft_limit <= a.usable_tokens);
        assert!(a.checkpoint_required);
    }
}

#[test]
fn budgets_that_are_not_valid_are_refused_for_their_first_fault() {
    assert_eq!(refusal(budget(10, 1, 1, 0).assess(0)), "soft threshold must be 1..=100");
    assert_eq!(refusal(budget(10, 1, 1, 101).assess(0)), "soft threshold must be 1..=100");
    assert_eq!(
        refusal(budget(10, u64::MAX, 1, 101).assess(0)),
        "soft threshold must be 1..=100"
    );
    assert_eq!(refusal(budget(u64::MAX, u64::MAX, 1, 50).assess(0)), "token budget overflow");
    assert_eq!(refusal(budget(10, 6, 5, 50).assess(0)), "reserves exceed context window");
}

#[test]
fn budgeter_assesses_registered_models() {
    let mut budgeter = ContextBudgeter::default();
    budgeter.register("small".to_owned(), budget(1_000, 100, 100, 50)).unwrap();
    budgeter.register("large".to_owned(), budget(100_000, 10_000, 10_000, 75)).unwrap();
    assert_eq!(budgeter.assess("small", 400).unwrap().soft_limit, 400);
    assert_eq!(budgeter.assess("large", 400).unwrap().soft_limit, 60_000);
    assert_eq!(refusal(budgeter.assess("medium", 1)), "unknown model: medium");
}

#[test]
fn registering_again_replaces_and_a_refusal_changes_nothing() {
    let mut budgeter = ContextBudgeter::default();
    budgeter.register("m".to_owned(), budget(1_000, 0, 0, 50)).unwrap();
    budgeter.register("n".to_owned(), budget(1_000, 0, 0, 50)).unwrap();
    budgeter.register("m".to_owned(), budget(2_000, 0, 0, 50)).unwrap();
    assert_eq!(budgeter.assess("m", 0).unwrap().soft_limit, 1_000);
    assert_eq!(
        refusal(budgeter.register("m".to_owned(), budget(1, 2, 0, 50))),
        "reserves exceed context window"
    );
    assert_eq!(budgeter.assess("m", 0).unwrap().soft_limit, 1_000);
    assert_eq!(budgeter.assess("n", 0).unwrap().soft_limit, 500);
}
