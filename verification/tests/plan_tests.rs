use g3_verify::pipeline::{
    elapsed_seconds, format_duration, generate_summary, PipelineState, RetryError, StageState,
    StageStatus, Timestamp,
};
use g3_verify::plan::{Plan, PlanError, PlanItem, PlanItemState};

fn item(id: &str, state: PlanItemState) -> PlanItem {
    PlanItem::new(id, "work").with_state(state)
}

#[test]
fn items_move_along_the_arrows_only() {
    let (todo, doing, done, blocked) = (PlanItemState::Todo, PlanItemState::Doing, PlanItemState::Done, PlanItemState::Blocked);
    let allowed = [
        (todo, todo),
        (todo, doing),
        (todo, blocked),
        (doing, doing),
        (doing, done),
        (doing, blocked),
        (done, done),
        (blocked, blocked),
    ];
    for from in [todo, doing, done, blocked] {
        for to in [todo, doing, done, blocked] {
            assert_eq!(from.can_become(to), allowed.contains(&(from, to)), "{:?} -> {:?}", from, to);
        }
    }
}

#[test]
fn a_plan_is_terminal_when_nothing_is_left_to_do() {
    let (todo, doing, done, blocked) = (PlanItemState::Todo, PlanItemState::Doing, PlanItemState::Done, PlanItemState::Blocked);
    let plan_of = |states: &[PlanItemState]| {
        let mut plan = Plan::new("p");
        let items = states.iter().enumerate().map(|(i, s)| item(&format!("i{}", i), *s)).collect();
        plan.items = items;
        plan
    };
    assert!(plan_of(&[]).is_terminal());
    assert!(plan_of(&[done, done]).is_terminal());
    assert!(plan_of(&[done, blocked]).is_terminal());
    assert!(plan_of(&[blocked]).is_terminal());
    assert!(!plan_of(&[done, todo]).is_terminal());
    assert!(!plan_of(&[doing, blocked]).is_terminal());
    assert!(!plan_of(&[todo]).is_terminal());
}

#[test]
fn every_write_advances_the_revision() {
    let mut plan = Plan::new("p");
    assert_eq!(plan.revision, 0);
    assert_eq!(plan.approved_revision, None);
    plan.write(vec![item("a", PlanItemState::Todo), item("b", PlanItemState::Todo)]).unwrap();
    assert_eq!(plan.revision, 1);
    plan.write(vec![item("a", PlanItemState::Doing)]).unwrap();
    assert_eq!(plan.revision, 2);
    assert_eq!(plan.items.len(), 1);
    plan.approve();
    assert_eq!(plan.approved_revision, Some(2));
    plan.write(vec![item("a", PlanItemState::Done), item("c", PlanItemState::Todo)]).unwrap();
    assert_eq!(plan.revision, 3);
    assert_eq!(plan.approved_revision, Some(2));
}

#[test]
fn after_approval_nothing_is_removed() {
    let mut plan = Plan::new("p");
    plan.write(vec![item("a", PlanItemState::Todo), item("b", PlanItemState::Doing)]).unwrap();
    plan.approve();
    let before = plan.clone();
    assert_eq!(
        plan.write(vec![item("a", PlanItemState::Doing)]),
        Err(PlanError::ItemRemoved("b".to_string()))
    );
    assert_eq!(plan, before);
    plan.write(vec![item("b", PlanItemState::Blocked), item("a", PlanItemState::Doing)]).unwrap();
    plan.write(vec![
        item("b", PlanItemState::Blocked),
        item("a", PlanItemState::Done),
        item("new", PlanItemState::Todo),
    ])
    .unwrap();
    assert!(plan.items.iter().any(|i| i.id == "a"));
    assert!(plan.items.iter().any(|i| i.id == "b"));
    assert!(!plan.is_terminal());
    plan.write(vec![
        item("b", PlanItemState::Blocked),
        item("a", PlanItemState::Done),
        item("new", PlanItemState::Blocked),
    ])
    .unwrap();
    assert!(plan.is_terminal());
}

#[test]
fn writes_that_break_the_rules_change_nothing() {
    let mut plan = Plan::new("p");
    plan.write(vec![item("a", PlanItemState::Done), item("b", PlanItemState::Blocked)]).unwrap();
    let before = plan.clone();
    assert_eq!(
        plan.write(vec![item("a", PlanItemState::Doing), item("b", PlanItemState::Blocked)]),
        Err(PlanError::InvalidTransition("a".to_string()))
    );
    assert_eq!(
        plan.write(vec![item("a", PlanItemState::Done), item("b", PlanItemState::Todo)]),
        Err(PlanError::InvalidTransition("b".to_string()))
    );
    assert_eq!(
        plan.write(vec![item("x", PlanItemState::Todo), item("x", PlanItemState::Todo)]),
        Err(PlanError::DuplicateItem("x".to_string()))
    );
    assert_eq!(plan, before);
    plan.revision = u32::MAX;
    assert_eq!(plan.write(vec![]), Err(PlanError::RevisionExhausted));
    assert_eq!(plan.revision, u32::MAX);
}

#[test]
fn durations_are_written_in_words() {
    assert_eq!(format_duration(0), "0s");
    assert_eq!(format_duration(59), "59s");
    assert_eq!(format_duration(60), "1m 0s");
    assert_eq!(format_duration(3599), "59m 59s");
    assert_eq!(format_duration(3600), "1h 0m");
    assert_eq!(format_duration(7325), "2h 2m");
}

#[test]
fn seconds_between_times_round_towards_zero() {
    let t = |secs: i64, nanos: u32| Timestamp { secs, nanos };
    assert_eq!(elapsed_seconds(t(10, 0), t(15, 0)), 5);
    assert_eq!(elapsed_seconds(t(10, 900_000_000), t(15, 100_000_000)), 4);
    assert_eq!(elapsed_seconds(t(10, 100_000_000), t(15, 900_000_000)), 5);
    assert_eq!(elapsed_seconds(t(15, 0), t(10, 0)), (-5i64) as u64);
    assert_eq!(elapsed_seconds(t(15, 100_000_000), t(10, 900_000_000)), (-4i64) as u64);
    assert_eq!(elapsed_seconds(t(0, 0), t(0, 999_999_999)), 0);
}

#[test]
fn a_new_run_starts_at_the_first_stage() {
    let a = PipelineState::new(5);
    let b = PipelineState::new(5);
    assert_eq!(a.run_id.chars().count(), 8);
    assert!(a.run_id.chars().all(|c| c.is_ascii_hexdigit()));
    assert_ne!(a.run_id, b.run_id);
    assert!(a.started_at.secs > 1_600_000_000);
    assert_eq!(a.stages[3], StageState::new("fowler"));
    assert_eq!(a.current_stage_def().unwrap().name, "euler");
    assert!(!a.has_failures());
    assert_eq!(a.find_resume_point(), 0);
}

#[test]
fn a_retry_keeps_the_count_of_attempts() {
    let mut state = PipelineState::new(1);
    state.mark_running();
    assert!(state.stages[0].started_at.is_some());
    state.mark_failed("first");
    assert!(state.has_failures());
    state.retry_stage().unwrap();
    assert_eq!(state.stages[0].status, StageStatus::Pending);
    assert_eq!(state.stages[0].started_at, None);
    state.mark_failed("second");
    assert_eq!(state.stages[0].status, StageStatus::Failed { error: "second".to_string(), attempts: 2 });
    state.retry_stage().unwrap();
    assert_eq!(state.retry_stage(), Err(RetryError::NotFailed("euler".to_string())));
    assert_eq!(
        state.retry_stage().unwrap_err().to_string(),
        "Stage 'euler' is not in failed state"
    );
    state.current_stage = 7;
    assert_eq!(state.retry_stage(), Err(RetryError::InvalidStage));
}

#[test]
fn the_last_stage_ends_the_run() {
    let mut state = PipelineState::new(1);
    for i in 0..6 {
        state.mark_complete(1, 1, "h");
        assert_eq!(state.current_stage, i + 1);
        assert_eq!(state.completed_at, None);
    }
    state.mark_skipped("nothing new");
    assert_eq!(state.current_stage, 6);
    assert!(state.completed_at.is_some());
    assert!(state.is_complete());
    assert_eq!(state.stages[6].status, StageStatus::Skipped { reason: "nothing new".to_string() });
    assert_eq!(state.find_resume_point(), 7);
    state.resume();
    assert_eq!(state.current_stage, 7);
    assert!(state.current_stage_def().is_none());
    state.mark_running();
    state.mark_failed("past the end");
    assert!(!state.has_failures());
}

#[test]
fn a_crashed_stage_is_taken_up_again() {
    let mut state = PipelineState::new(1);
    state.mark_complete(2, 3, "abc");
    state.mark_skipped("no commits");
    state.mark_running();
    state.current_stage = 0;
    let untouched = state.stages[0].clone();
    state.resume();
    assert_eq!(state.current_stage, 2);
    assert_eq!(state.stages[2].status, StageStatus::Pending);
    assert_eq!(state.stages[2].started_at, None);
    assert_eq!(state.stages[0], untouched);
    assert_eq!(state.commit_cursor, Some("abc".to_string()));
}

#[test]
fn the_summary_tells_times_and_counts() {
    let mut state = PipelineState::new(1);
    state.run_id = "deadbeef".to_string();
    state.started_at = Timestamp { secs: 0, nanos: 0 };
    state.mark_complete(75, 3, "abc");
    state.mark_complete(3700, 4, "def");
    state.mark_failed("boom");
    state.stages[3].status = StageStatus::Running;
    state.stages[4].status = StageStatus::Skipped { reason: "none".to_string() };
    let open = generate_summary(&state);
    assert_eq!(
        open,
        "\n## SDLC Pipeline Summary\n\n**Run ID:** deadbeef\n**Started:** 1970-01-01 00:00:00 UTC\n\n### Stage Results\n\n| Stage | Status | Duration | Commits |\n|-------|--------|----------|---------|\n| euler | ✅ Complete | 1m 15s | 3 |\n| breaker | ✅ Complete | 1h 1m | 4 |\n| hopper | ❌ Failed (1x) | - | - |\n| fowler | 🔄 Running | - | - |\n| carmack | ⊘ Skipped | - | - |\n| lamport | ⏳ Pending | - | - |\n| huffman | ⏳ Pending | - | - |\n\n### Summary\n\n- **Completed:** 2 stages\n- **Failed:** 1 stages\n- **Skipped:** 1 stages\n- **Total Commits Processed:** 7\n"
    );
    state.completed_at = Some(Timestamp { secs: 86_400 + 3_725, nanos: 5 });
    let closed = generate_summary(&state);
    assert!(closed.contains("**Completed:** 1970-01-02 01:02:05 UTC\n**Total Duration:** 25h 2m\n"));
}

#[test]
fn a_new_item_holds_what_it_was_given_and_nothing_else() {
    let item = g3_verify::plan::PlanItem::new("cache", "Add a cache");
    assert_eq!(item.id, "cache");
    assert_eq!(item.description, "Add a cache");
    assert_eq!(item.state, g3_verify::plan::PlanItemState::Todo);
    assert!(item.touches.is_empty());
    assert!(item.evidence.is_empty());
    assert_eq!(item.checks, None);
    assert_eq!(item.notes, None);
}
