//! What completed tasks hand to the tasks that waited on them.
use aionui_team::error::TeamError;
use aionui_team::input_context::{
    build_input_context, cap_upstream, render_input_context, MAX_INPUT_CONTEXT_CHARS,
};
use aionui_team::roster::TeamAgent;
use aionui_team::scheduler::TeammateRole;
use aionui_team::task::{TaskStatus, TeamTask, TeamTaskRow};
use aionui_team::task_board::{TaskBoard, TaskStore, TaskUpdate};
use aionui_team::wake::{build_wake_payload, with_upstream_results};

struct Bench {
    board: TaskBoard,
    store: TaskStore,
    next: i64,
}

impl Bench {
    fn new(board: TaskBoard) -> Bench {
        Bench { board, store: TaskStore::new(Vec::new()), next: 0 }
    }

    fn create_task(
        &mut self,
        team: &str,
        subject: &str,
        description: Option<&str>,
        owner: Option<&str>,
        blocked_by: &[String],
        expected_output: Option<&str>,
    ) -> Result<TeamTask, TeamError> {
        self.next += 1;
        let id = format!("task-{}", self.next);
        self.board.create_task(
            &mut self.store,
            &id,
            self.next,
            team,
            subject,
            description,
            owner,
            blocked_by,
            expected_output,
        )
    }

    fn update_task(&mut self, team: &str, id: &str, update: &TaskUpdate) -> Result<TeamTask, TeamError> {
        self.next += 1;
        self.board.update_task(&mut self.store, self.next, team, id, update)
    }




    fn after(&mut self, subject: &str, deps: &[&TeamTask]) -> TeamTask {
        let ids: Vec<String> = deps.iter().map(|t| t.id.clone()).collect();
        self.create_task("t1", subject, None, None, &ids, None).unwrap()
    }

    fn complete(&mut self, id: &str) -> TeamTask {
        self.update_task("t1", id, &status(TaskStatus::Completed)).unwrap()
    }
}

fn status(s: TaskStatus) -> TaskUpdate {
    TaskUpdate { status: Some(s), ..Default::default() }
}

fn dep_row(id: &str, created: i64, result: Option<&str>) -> TeamTaskRow {
    TeamTaskRow {
        id: id.to_string(),
        team_id: "t1".to_string(),
        subject: id.to_string(),
        description: None,
        status: "completed".to_string(),
        owner: None,
        blocked_by: "[]".to_string(),
        blocks: r#"["B"]"#.to_string(),
        metadata: None,
        created_at: created,
        updated_at: created,
        engagement_id: None,
        expected_output: None,
        result: result.map(str::to_string),
        input_context: None,
    }
}

fn ready_task() -> TeamTaskRow {
    TeamTaskRow {
        subject: "Do B".to_string(),
        status: "pending".to_string(),
        blocks: "[]".to_string(),
        ..dep_row("B", 0, None)
    }
}

#[test]
fn build_input_context_keeps_every_dep_under_the_cap() {
    let deps = [dep_row("A", 1, Some("oldest result")), dep_row("X", 2, Some("newest result"))];
    let refs: Vec<&TeamTaskRow> = deps.iter().collect();
    let ctx = build_input_context(&ready_task(), &refs);
    assert!(ctx.contains("- A: oldest result"), "{ctx}");
    assert!(ctx.contains("- X: newest result"), "{ctx}");
    assert!(!ctx.contains("truncated"), "no overflow, nothing dropped:\n{ctx}");
}

#[test]
fn cap_keeps_newest_dep_and_drops_oldest_on_overflow() {
    let big = "y".repeat(MAX_INPUT_CONTEXT_CHARS);
    let deps = [dep_row("A", 1, Some(&big)), dep_row("X", 2, Some("newest short"))];
    let refs: Vec<&TeamTaskRow> = deps.iter().collect();
    let ctx = build_input_context(&ready_task(), &refs);
    assert!(ctx.len() <= MAX_INPUT_CONTEXT_CHARS, "cap respected: {}", ctx.len());
    assert!(ctx.contains("newest short"), "newest dep kept:\n{ctx}");
    assert!(!ctx.contains('y'), "oldest (huge) dep dropped:\n{ctx}");
    assert!(ctx.contains("truncated"), "overflow recorded:\n{ctx}");
}

#[test]
fn context_has_its_exact_form() {
    let mut task = ready_task();
    task.description = Some("  with care \n".to_string());
    let deps = [dep_row("A", 1, Some("one \n")), dep_row("X", 2, Some(" two"))];
    let refs: Vec<&TeamTaskRow> = deps.iter().collect();
    assert_eq!(
        build_input_context(&task, &refs),
        "[[BRIEF]]\nDo B\nwith care\n\n[[UPSTREAM]]\n- A: one\n- X:  two\n"
    );
}

#[test]
fn rendering_counts_what_was_left_out() {
    assert_eq!(render_input_context("P\n", &["a", "b"], 0), "P\na\nb\n");
    assert_eq!(
        render_input_context("P\n", &["b"], 12),
        "P\n…12 older upstream result(s) truncated\nb\n"
    );
}

#[test]
fn a_single_overlong_result_is_cut_on_a_character() {
    let line = "é".repeat(5000);
    let out = cap_upstream("P\n", &[line]);
    assert!(out.len() <= MAX_INPUT_CONTEXT_CHARS);
    // The prefix takes two bytes and the line break one: 7997 are left, an odd
    // number, so one of them stays unused.
    assert_eq!(out.len(), 2 + 7996 + 1);
    assert!(out.starts_with("P\né"));
    assert!(out.ends_with("é\n"));
}

#[test]
fn results_that_fit_are_all_kept() {
    // Without a marker both lines fit, with one they would not.
    let newest = "y".repeat(7990);
    let out = cap_upstream("P", &["a".to_string(), newest.clone()]);
    assert_eq!(out, format!("Pa\n{newest}\n"));
    let full = "y".repeat(MAX_INPUT_CONTEXT_CHARS - 4);
    let out = cap_upstream("P", &["a".to_string(), full.clone()]);
    assert_eq!(out.len(), MAX_INPUT_CONTEXT_CHARS);
    assert_eq!(out, format!("Pa\n{full}\n"));
    let over = "y".repeat(MAX_INPUT_CONTEXT_CHARS - 3);
    let out = cap_upstream("P", &["a".to_string(), over]);
    assert!(out.starts_with("P…1 older upstream result(s) truncated\n"));
}

#[test]
fn the_cap_holds_with_a_marker_and_with_an_overlong_prefix() {
    let lines = vec!["old".to_string(), "n".repeat(9000)];
    let out = cap_upstream("P\n", &lines);
    assert!(out.len() <= MAX_INPUT_CONTEXT_CHARS);
    assert!(out.contains("…1 older upstream result(s) truncated\nnnn"));
    let prefix = "p".repeat(9000);
    assert_eq!(cap_upstream(&prefix, &["x".to_string()]).len(), MAX_INPUT_CONTEXT_CHARS);
}

fn ctx_bench() -> Bench {
    Bench::new(TaskBoard::new_for_user("u-ctx").with_engagement("e1"))
}

#[test]
fn ready_downstream_materializes_upstream_result_into_input_context() {
    let mut bench = ctx_bench();
    let a = bench.create_task("t1", "A", None, None, &[], None).unwrap();
    let b = bench
        .create_task(
            "t1",
            "Implement B",
            Some("the downstream task"),
            None,
            &[a.id.clone()],
            None,
        )
        .unwrap();
    bench.board.set_task_result(&mut bench.store, "t1", &a.id, "A did X").unwrap();
    bench.complete(&a.id);
    let row = bench.store.rows.iter().find(|r| r.id == b.id).unwrap();
    let ctx = row.input_context.as_ref().expect("ready downstream gets an input_context");
    assert!(ctx.contains("A did X"), "must carry the upstream result:\n{ctx}");
    assert!(ctx.contains(&a.id), "must name the upstream dep id:\n{ctx}");
    assert!(ctx.contains("[[UPSTREAM]]"), "must have an upstream section:\n{ctx}");
}

#[test]
fn input_context_is_capped_at_max_chars() {
    let mut bench = ctx_bench();
    let a = bench.create_task("t1", "A", None, None, &[], None).unwrap();
    let b = bench.after("B", &[&a]);
    bench.board.set_task_result(&mut bench.store, "t1", &a.id, &"x".repeat(20_000)).unwrap();
    bench.complete(&a.id);
    let row = bench.store.rows.iter().find(|r| r.id == b.id).unwrap();
    let ctx = row.input_context.as_ref().expect("the truncated upstream result is recorded");
    assert!(ctx.len() <= 8000, "must be capped at 8000 bytes, got {}", ctx.len());
    assert!(ctx.contains("[[UPSTREAM]]"), "capped context keeps the section:\n{ctx}");
}

#[test]
fn ready_without_completed_upstream_result_leaves_input_context_null() {
    let mut bench = ctx_bench();
    let a = bench.create_task("t1", "A", None, None, &[], None).unwrap();
    let b = bench.after("B", &[&a]);
    bench.complete(&a.id);
    let row = bench.store.rows.iter().find(|r| r.id == b.id).unwrap();
    let blocked_by: Vec<String> = serde_json::from_str(&row.blocked_by).unwrap();
    assert!(blocked_by.is_empty(), "B is unblocked by A's completion");
    assert!(row.input_context.is_none(), "got {:?}", row.input_context);
}

#[test]
fn a_context_is_written_once_and_only_when_ready() {
    let mut bench = ctx_bench();
    let a = bench.create_task("t1", "A", None, None, &[], None).unwrap();
    let b = bench.after("B", &[&a]);
    let e = bench.board.materialize_input_context(&mut bench.store, "t1", "none");
    assert!(matches!(e, Err(TeamError::TaskNotFound(_))));
    assert!(bench.board.materialize_input_context(&mut bench.store, "t1", &b.id).unwrap().is_none());
    bench.board.set_task_result(&mut bench.store, "t1", &a.id, "first").unwrap();
    bench.complete(&a.id);
    bench.board.set_task_result(&mut bench.store, "t1", &a.id, "second").unwrap();
    assert!(bench.board.materialize_input_context(&mut bench.store, "t1", &b.id).unwrap().is_none());
    assert!(bench.store.rows[1].input_context.as_ref().unwrap().contains("first"));
    let other = TaskBoard::new().with_engagement("e2");
    let e = other.set_task_result(&mut bench.store, "t1", &a.id, "third");
    assert!(matches!(e, Err(TeamError::TaskNotFound(_))));
}

#[test]
fn results_come_oldest_first() {
    let mut b = ready_task();
    b.blocked_by = "[]".to_string();
    let rows =
        vec![dep_row("late", 9, Some("z")), b, dep_row("early", 1, Some("y")), dep_row("none", 2, None)];
    let mut store = TaskStore::new(rows);
    let ctx = TaskBoard::new().materialize_input_context(&mut store, "t1", "B").unwrap().unwrap();
    assert_eq!(ctx, "[[BRIEF]]\nDo B\n\n[[UPSTREAM]]\n- early: y\n- late: z\n");
}

fn wake_agent() -> TeamAgent {
    TeamAgent {
        slot_id: "w1".to_string(),
        name: "Worker".to_string(),
        role: TeammateRole::Teammate,
        conversation_id: "conv-w1".to_string(),
        backend: "acp".to_string(),
        model: "model-a".to_string(),
        assistant_id: None,
        status: None,
        conversation_type: None,
        cli_path: None,
    }
}

fn roster(ids: &[&str]) -> Vec<String> {
    ids.iter().map(|id| (*id).to_string()).collect()
}

#[test]
fn wake_payload_renders_upstream_results_section() {
    let ctx = "[[BRIEF]]\nB\n\n[[UPSTREAM]]\n- aaa11111: A did X\n";
    let payload = build_wake_payload(&wake_agent(), &[], &[], &roster(&["w1"]), Some(ctx));
    assert!(payload.contains("## Upstream Results"), "section header present:\n{payload}");
    assert!(payload.contains("A did X"), "upstream text carried:\n{payload}");
}

#[test]
fn wake_payload_without_upstream_is_unchanged() {
    let none = build_wake_payload(&wake_agent(), &[], &[], &roster(&["w1"]), None);
    let empty = build_wake_payload(&wake_agent(), &[], &[], &roster(&["w1"]), Some(""));
    assert!(!none.contains("## Upstream Results"), "no upstream → no section:\n{none}");
    assert_eq!(none, empty, "None and empty render identically (byte-identical baseline)");
}

#[test]
fn upstream_results_stand_behind_whatever_else_is_told() {
    let base = || "base\n".to_string();
    assert_eq!(with_upstream_results(base(), Some("ctx")), "base\n\n## Upstream Results\nctx");
    assert_eq!(with_upstream_results(base(), Some(" \n")), "base\n");
    assert_eq!(with_upstream_results(base(), None), "base\n");
}
