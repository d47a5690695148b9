use unleashed_agent::goal::{
    default_wall_clock_budget, GoalCommand, GoalStatus, ThreadGoal, MAX_STORED_GOAL_CHECKPOINTS,
};

const NOW: i64 = 1_700_000_000_000;

#[test]
fn test_parse_goal_commands() {
    assert_eq!(GoalCommand::parse(""), GoalCommand::Status);
    assert_eq!(GoalCommand::parse("pause"), GoalCommand::Pause);
    assert_eq!(GoalCommand::parse("clear"), GoalCommand::Clear);
    assert_eq!(
        GoalCommand::parse("fix the failing tests"),
        GoalCommand::SetGoal {
            objective: "fix the failing tests".into(),
            token_budget: None,
        }
    );
    assert_eq!(
        GoalCommand::parse("--budget 100000 ship feature X"),
        GoalCommand::SetGoal {
            objective: "ship feature X".into(),
            token_budget: Some(100000),
        }
    );
}

#[test]
fn test_token_budget_marks_limited() {
    let mut goal = ThreadGoal::new("ship it".into(), "done".into(), Some(100), NOW);
    goal.record_tokens(50);
    assert_eq!(goal.status, GoalStatus::Active);
    assert!(goal.within_token_budget());

    goal.record_tokens(60);
    assert_eq!(goal.status, GoalStatus::BudgetLimited);
    assert!(!goal.within_token_budget());
}

#[test]
fn test_no_budget_never_limits() {
    let mut goal = ThreadGoal::new("ship it".into(), "done".into(), None, NOW);
    goal.record_tokens(1_000_000);
    assert_eq!(goal.status, GoalStatus::Active);
    assert!(goal.within_token_budget());
}

#[test]
fn test_goal_prompts_include_objective() {
    let goal = ThreadGoal::new(
        "read Cargo.toml".into(),
        "file contents reported".into(),
        None,
        NOW,
    );
    assert!(goal.continuation_prompt().contains("read Cargo.toml"));
    assert!(goal.verification_prompt().contains("read Cargo.toml"));
    assert!(goal.status_summary().contains("Continuations: 0"));
}

#[test]
fn test_checkpoint_context_in_prompts() {
    let mut goal = ThreadGoal::new("ship".into(), "tests pass".into(), None, NOW);
    goal.push_checkpoint("Fixed login bug".into(), NOW);
    assert!(goal.continuation_prompt().contains("Fixed login bug"));
    assert!(goal.verification_prompt().contains("Fixed login bug"));
}

#[test]
fn test_clone_preserves_state_for_rollover() {
    let mut goal = ThreadGoal::new("ship feature".into(), "tests pass".into(), Some(100_000), NOW);
    goal.record_tokens(40_000);
    goal.continuation_count = 5;
    goal.push_checkpoint("implemented core logic".into(), NOW);
    goal.push_checkpoint("wired up the UI".into(), NOW);

    let carried = goal.clone();
    assert_eq!(carried.objective, "ship feature");
    assert_eq!(carried.success_criteria, "tests pass");
    assert_eq!(carried.token_budget, Some(100_000));
    assert_eq!(carried.tokens_used, 40_000);
    assert_eq!(carried.continuation_count, 5);
    assert_eq!(carried.checkpoints.len(), 2);
    assert!(carried.is_active());
    assert!(carried.continuation_prompt().contains("wired up the UI"));
}

#[test]
fn test_should_write_checkpoint_every_two_continuations() {
    let mut goal = ThreadGoal::new("ship".into(), "done".into(), None, NOW);
    goal.continuation_count = 1;
    assert!(!goal.should_write_checkpoint());
    goal.continuation_count = 2;
    assert!(goal.should_write_checkpoint());
    goal.push_checkpoint("progress".into(), NOW);
    goal.continuation_count = 3;
    assert!(!goal.should_write_checkpoint());
    goal.continuation_count = 4;
    assert!(goal.should_write_checkpoint());
}

#[test]
fn goal_commands_are_trimmed_and_resume_is_known() {
    assert_eq!(GoalCommand::parse("  resume  "), GoalCommand::Resume);
    assert_eq!(GoalCommand::parse(" \t "), GoalCommand::Status);
}

#[test]
fn only_the_latest_checkpoints_are_stored() {
    let mut goal = ThreadGoal::new("ship".into(), "done".into(), None, NOW);
    for i in 0..MAX_STORED_GOAL_CHECKPOINTS + 3 {
        goal.push_checkpoint(format!("step {i}"), NOW);
    }
    assert_eq!(goal.checkpoints.len(), MAX_STORED_GOAL_CHECKPOINTS);
    assert_eq!(goal.checkpoints[0].summary, "step 3");
}

#[test]
fn recorded_tokens_saturate() {
    let mut goal = ThreadGoal::new("ship".into(), "done".into(), None, NOW);
    goal.record_tokens(u64::MAX);
    goal.record_tokens(1);
    assert_eq!(goal.tokens_used, u64::MAX);
    assert_eq!(goal.status, GoalStatus::Active);
}

#[test]
fn the_wall_clock_budget_is_four_hours() {
    assert_eq!(default_wall_clock_budget(), 14_400);
}
