//! Creating, changing, completing and listing tasks.
use aionui_team::error::TeamError;
use aionui_team::task::{TaskStatus, TeamTask, TeamTaskRow};
use aionui_team::task_board::{TaskBoard, TaskChanged, TaskStore, TaskUpdate, TeamTaskChange};

struct Bench {
    board: TaskBoard,
    store: TaskStore,
    next: i64,
}

impl Bench {
    fn new(board: TaskBoard) -> Bench {
        Bench { board, store: TaskStore::new(Vec::new()), next: 0 }
    }

    fn create_task(
        &mut self,
        team: &str,
        subject: &str,
        description: Option<&str>,
        owner: Option<&str>,
        blocked_by: &[String],
        expected_output: Option<&str>,
    ) -> Result<TeamTask, TeamError> {
        self.next += 1;
        let id = format!("task-{}", self.next);
        self.board.create_task(
            &mut self.store,
            &id,
            self.next,
            team,
            subject,
            description,
            owner,
            blocked_by,
            expected_output,
        )
    }

    fn update_task(&mut self, team: &str, id: &str, update: &TaskUpdate) -> Result<TeamTask, TeamError> {
        self.next += 1;
        self.board.update_task(&mut self.store, self.next, team, id, update)
    }

    fn list_tasks(&self, team: &str) -> Vec<TeamTask> {
        self.board.list_tasks(&self.store, team)
    }

    fn find(&self, team: &str, id: &str) -> TeamTask {
        self.list_tasks(team).into_iter().find(|t| t.id == id).unwrap()
    }

    fn simple(&mut self, subject: &str) -> TeamTask {
        self.create_task("t1", subject, None, None, &[], None).unwrap()
    }

    fn after(&mut self, subject: &str, deps: &[&TeamTask]) -> TeamTask {
        let ids: Vec<String> = deps.iter().map(|t| t.id.clone()).collect();
        self.create_task("t1", subject, None, None, &ids, None).unwrap()
    }

    fn complete(&mut self, id: &str) -> TeamTask {
        self.update_task("t1", id, &status(TaskStatus::Completed)).unwrap()
    }
}

fn status(s: TaskStatus) -> TaskUpdate {
    TaskUpdate { status: Some(s), ..Default::default() }
}

fn bench() -> Bench {
    Bench::new(TaskBoard::new())
}

fn board_with_events() -> Bench {
    Bench::new(TaskBoard::new().with_events())
}

fn changes(b: &Bench) -> &Vec<TaskChanged> {
    &b.store.events
}

#[test]
fn create_task_broadcasts_created() {
    let mut b = board_with_events();
    let task = b.create_task("t1", "Build", None, None, &[], None).unwrap();
    assert_eq!(changes(&b).len(), 1);
    assert_eq!(changes(&b)[0].change, TeamTaskChange::Created);
    assert_eq!(changes(&b)[0].task.id, task.id);
    assert_eq!(changes(&b)[0].task.status.as_str(), "pending");
}

#[test]
fn update_task_broadcasts_updated_including_deleted() {
    let mut b = board_with_events();
    let task = b.create_task("t1", "Build", None, None, &[], None).unwrap();
    b.update_task("t1", &task.id, &status(TaskStatus::Deleted)).unwrap();
    let updated: Vec<_> =
        changes(&b).iter().filter(|c| c.change == TeamTaskChange::Updated).collect();
    assert_eq!(updated.len(), 1);
    assert_eq!(updated[0].task.id, task.id);
    assert_eq!(updated[0].task.status.as_str(), "deleted");
}

#[test]
fn complete_task_broadcasts_downstream_unblock() {
    let mut bench = board_with_events();
    let a = bench.simple("A");
    let b = bench.after("B", &[&a]);
    bench.complete(&a.id);
    let b_updates: Vec<_> = changes(&bench)
        .iter()
        .filter(|c| c.task.id == b.id && c.change == TeamTaskChange::Updated)
        .collect();
    assert_eq!(b_updates.len(), 1, "completing A must broadcast B's unblock");
    assert!(b_updates[0].task.blocked_by.is_empty());
}

#[test]
fn no_emitter_does_not_panic_and_emits_nothing() {
    let mut b = bench();
    let task = b.create_task("t1", "Build", None, None, &[], None).unwrap();
    b.complete(&task.id);
    assert!(changes(&b).is_empty());
}

#[test]
fn create_task_no_dependencies() {
    let mut b = bench();
    let task = b.simple("Implement feature");
    assert_eq!(task.subject, "Implement feature");
    assert_eq!(task.status, TaskStatus::Pending);
    assert!(task.blocked_by.is_empty());
    assert!(task.blocks.is_empty());
}

#[test]
fn create_task_with_owner_and_description() {
    let mut b = bench();
    let task = b
        .create_task("t1", "Design API", Some("REST endpoints"), Some("a1"), &[], None)
        .unwrap();
    assert_eq!(task.description.as_deref(), Some("REST endpoints"));
    assert_eq!(task.owner.as_deref(), Some("a1"));
}

#[test]
fn create_task_with_dependencies() {
    let mut b = bench();
    let task_a = b.simple("Task A");
    let task_b = b.after("Task B", &[&task_a]);
    assert_eq!(task_b.blocked_by, vec![task_a.id.clone()]);
    let row = b.store.rows.iter().find(|r| r.id == task_a.id).unwrap();
    let blocks_a: Vec<String> = serde_json::from_str(&row.blocks).unwrap();
    assert_eq!(blocks_a, vec![task_b.id]);
}

#[test]
fn create_task_nonexistent_dependency_fails() {
    let mut b = bench();
    let result = b.create_task("t1", "X", None, None, &["nonexistent".to_string()], None);
    assert!(matches!(result, Err(TeamError::BlockedTaskNotFound(ref d)) if d == "nonexistent"));
    assert!(b.store.rows.is_empty());
}

#[test]
fn create_task_under_a_taken_id_fails() {
    let mut b = bench();
    b.simple("A");
    let r = b.board.create_task(&mut b.store, "task-1", 9, "t1", "B", None, None, &[], None);
    assert!(matches!(r, Err(TeamError::TaskIdTaken(ref id)) if id == "task-1"));
    assert_eq!(b.store.rows.len(), 1);
}

#[test]
fn update_task_status() {
    let mut b = bench();
    let task = b.simple("Work");
    let updated = b.update_task("t1", &task.id, &status(TaskStatus::InProgress)).unwrap();
    assert_eq!(updated.status, TaskStatus::InProgress);
}

#[test]
fn update_task_description_and_owner() {
    let mut b = bench();
    let task = b.simple("Work");
    let update = TaskUpdate {
        description: Some("New desc".to_string()),
        owner: Some("a2".to_string()),
        ..Default::default()
    };
    let updated = b.update_task("t1", &task.id, &update).unwrap();
    assert_eq!(updated.description.as_deref(), Some("New desc"));
    assert_eq!(updated.owner.as_deref(), Some("a2"));
}

#[test]
fn update_nonexistent_task_fails() {
    let mut b = bench();
    let result = b.update_task("t1", "nonexistent", &TaskUpdate::default());
    assert!(matches!(result, Err(TeamError::TaskNotFound(_))));
}

#[test]
fn complete_task_unblocks_downstream() {
    let mut bench = bench();
    let a = bench.simple("A");
    let b = bench.after("B", &[&a]);
    assert_eq!(b.blocked_by, vec![a.id.clone()]);
    bench.complete(&a.id);
    assert!(bench.find("t1", &b.id).blocked_by.is_empty());
}

#[test]
fn complete_task_unblocks_multiple_downstream() {
    let mut bench = bench();
    let a = bench.simple("A");
    let b = bench.after("B", &[&a]);
    let c = bench.after("C", &[&a]);
    bench.complete(&a.id);
    assert!(bench.find("t1", &b.id).blocked_by.is_empty());
    assert!(bench.find("t1", &c.id).blocked_by.is_empty());
}

#[test]
fn partial_unblock_preserves_other_dependencies() {
    let mut bench = bench();
    let a = bench.simple("A");
    let x = bench.simple("X");
    let b = bench.after("B", &[&a, &x]);
    assert_eq!(b.blocked_by.len(), 2);
    bench.complete(&a.id);
    assert_eq!(bench.find("t1", &b.id).blocked_by, vec![x.id]);
}

#[test]
fn complete_task_no_downstream_is_noop() {
    let mut b = bench();
    let task = b.simple("Standalone");
    assert_eq!(b.complete(&task.id).status, TaskStatus::Completed);
}

#[test]
fn list_tasks_empty() {
    assert!(bench().list_tasks("t1").is_empty());
}

#[test]
fn list_tasks_returns_all() {
    let mut b = bench();
    b.simple("A");
    b.simple("B");
    b.create_task("t2", "C", None, None, &[], None).unwrap();
    assert_eq!(b.list_tasks("t1").len(), 2);
}

#[test]
fn tk1_create_task_no_dependencies() {
    let mut b = bench();
    let task = b.simple("Implement feature");
    assert_eq!(task.subject, "Implement feature");
    assert_eq!(task.status, TaskStatus::Pending);
    assert!(task.blocked_by.is_empty());
    assert!(task.blocks.is_empty());
}

#[test]
fn tk1b_create_task_surfaces_expected_output_on_response() {
    let mut b = bench();
    let task =
        b.create_task("t1", "Write tests", None, None, &[], Some("A green test suite")).unwrap();
    assert_eq!(task.expected_output.as_deref(), Some("A green test suite"));
    assert_eq!(task.result, None);
    assert_eq!(task.input_context, None);
}

#[test]
fn tk2_create_task_with_single_dependency() {
    let mut bench = bench();
    let a = bench.simple("Task A");
    let b = bench.after("Task B", &[&a]);
    assert_eq!(b.blocked_by, vec![a.id.clone()]);
    assert_eq!(bench.find("t1", &a.id).blocks, vec![b.id]);
}

#[test]
fn tk3_create_task_with_multiple_dependencies() {
    let mut bench = bench();
    let a = bench.simple("A");
    let b = bench.simple("B");
    let c = bench.after("C", &[&a, &b]);
    assert_eq!(c.blocked_by.len(), 2);
    assert!(bench.find("t1", &a.id).blocks.contains(&c.id));
    assert!(bench.find("t1", &b.id).blocks.contains(&c.id));
}

#[test]
fn tk4_create_task_nonexistent_dependency_fails() {
    let mut b = bench();
    assert!(b.create_task("t1", "X", None, None, &["nonexistent".to_string()], None).is_err());
}

#[test]
fn tu1_update_status_pending_to_in_progress() {
    let mut b = bench();
    let task = b.simple("Work");
    let updated = b.update_task("t1", &task.id, &status(TaskStatus::InProgress)).unwrap();
    assert_eq!(updated.status, TaskStatus::InProgress);
}

#[test]
fn tu2_update_status_to_completed_triggers_unblock() {
    let mut bench = bench();
    let a = bench.simple("A");
    let b = bench.after("B", &[&a]);
    bench.complete(&a.id);
    assert!(bench.find("t1", &b.id).blocked_by.is_empty());
}

#[test]
fn tu3_update_description() {
    let mut b = bench();
    let task = b.simple("Work");
    let update =
        TaskUpdate { description: Some("Updated description".to_string()), ..Default::default() };
    let updated = b.update_task("t1", &task.id, &update).unwrap();
    assert_eq!(updated.description.as_deref(), Some("Updated description"));
}

#[test]
fn tu4_update_owner() {
    let mut b = bench();
    let task = b.simple("Work");
    let update = TaskUpdate { owner: Some("agent-2".to_string()), ..Default::default() };
    let updated = b.update_task("t1", &task.id, &update).unwrap();
    assert_eq!(updated.owner.as_deref(), Some("agent-2"));
}

#[test]
fn tu5_update_nonexistent_task_fails() {
    assert!(bench().update_task("t1", "nonexistent", &TaskUpdate::default()).is_err());
}

#[test]
fn cu1_complete_unblocks_single_downstream() {
    let mut bench = bench();
    let a = bench.simple("A");
    let b = bench.after("B", &[&a]);
    bench.complete(&a.id);
    assert!(bench.find("t1", &b.id).blocked_by.is_empty());
}

#[test]
fn cu2_complete_unblocks_multiple_downstream() {
    let mut bench = bench();
    let a = bench.simple("A");
    let b = bench.after("B", &[&a]);
    let c = bench.after("C", &[&a]);
    bench.complete(&a.id);
    assert!(bench.find("t1", &b.id).blocked_by.is_empty());
    assert!(bench.find("t1", &c.id).blocked_by.is_empty());
}

#[test]
fn cu3_partial_unblock_preserves_other_deps() {
    let mut bench = bench();
    let a = bench.simple("A");
    let x = bench.simple("X");
    let b = bench.after("B", &[&a, &x]);
    bench.complete(&a.id);
    assert_eq!(bench.find("t1", &b.id).blocked_by, vec![x.id]);
}

#[test]
fn cu4_complete_no_downstream_is_noop() {
    let mut b = bench();
    let task = b.simple("Solo");
    assert_eq!(b.complete(&task.id).status, TaskStatus::Completed);
}

#[test]
fn tt1_list_all_tasks() {
    let mut b = bench();
    b.simple("A");
    b.simple("B");
    assert_eq!(b.list_tasks("t1").len(), 2);
}

#[test]
fn tt2_list_empty() {
    assert!(bench().list_tasks("t1").is_empty());
}

#[test]
fn tt3_list_includes_dependency_info() {
    let mut bench = bench();
    let a = bench.simple("A");
    let b = bench.after("B", &[&a]);
    assert_eq!(bench.find("t1", &b.id).blocked_by, vec![a.id.clone()]);
    assert!(bench.find("t1", &a.id).blocks.contains(&b.id));
}

#[test]
fn dc4_blocked_by_blocks_bidirectional_consistency() {
    let mut bench = bench();
    let a = bench.simple("A");
    let b = bench.after("B", &[&a]);
    assert!(bench.find("t1", &a.id).blocks.contains(&b.id));
    assert!(bench.find("t1", &b.id).blocked_by.contains(&a.id));
}

fn task_row(id: &str, engagement: Option<&str>, blocked_by: &[&str], blocks: &[&str]) -> TeamTaskRow {
    TeamTaskRow {
        id: id.to_string(),
        team_id: "t1".to_string(),
        subject: id.to_string(),
        description: None,
        status: "pending".to_string(),
        owner: None,
        blocked_by: serde_json::to_string(blocked_by).unwrap(),
        blocks: serde_json::to_string(blocks).unwrap(),
        metadata: None,
        created_at: 1,
        updated_at: 1,
        engagement_id: engagement.map(str::to_string),
        expected_output: None,
        result: None,
        input_context: None,
    }
}

#[test]
fn engagement_update_rejects_cross_engagement_task() {
    let mut b = Bench::new(TaskBoard::new().with_engagement("e1"));
    let task = b.simple("InE1");
    let board2 = TaskBoard::new().with_engagement("e2");
    let result =
        board2.update_task(&mut b.store, 5, "t1", &task.id, &status(TaskStatus::Completed));
    assert!(matches!(result, Err(TeamError::TaskNotFound(_))));
    assert_eq!(b.store.rows[0].status, "pending", "E1 task must be unmutated");
}

#[test]
fn engagement_unblock_skips_cross_engagement_downstream() {
    let rows = vec![task_row("C", Some("e1"), &[], &["D"]), task_row("D", Some("e2"), &["C"], &[])];
    let mut store = TaskStore::new(rows);
    let board = TaskBoard::new().with_engagement("e1");
    board.update_task(&mut store, 5, "t1", "C", &status(TaskStatus::Completed)).unwrap();
    assert_eq!(store.rows[1].blocked_by, r#"["C"]"#);
}

#[test]
fn completing_a_task_with_an_unreadable_list_is_written_and_reported() {
    let mut row = task_row("C", None, &[], &[]);
    row.blocks = "not json".to_string();
    let mut store = TaskStore::new(vec![row]);
    let r = TaskBoard::new().update_task(&mut store, 5, "t1", "C", &status(TaskStatus::Completed));
    assert!(matches!(r, Err(TeamError::Json(_))));
    assert_eq!(store.rows[0].status, "completed");
    assert_eq!(store.rows[0].updated_at, 5);
}

#[test]
fn unreadable_rows_are_not_listed() {
    let mut row = task_row("C", None, &[], &[]);
    row.metadata = Some("{".to_string());
    let store = TaskStore::new(vec![row, task_row("D", None, &[], &[])]);
    let ids: Vec<String> =
        TaskBoard::new().list_tasks(&store, "t1").into_iter().map(|t| t.id).collect();
    assert_eq!(ids, vec!["D".to_string()]);
}

#[test]
fn metadata_of_an_update_is_stored() {
    let mut b = bench();
    let task = b.simple("Work");
    let mut object = serde_json::Map::new();
    object.insert("k".to_string(), serde_json::Value::from("v"));
    let update =
        TaskUpdate { metadata: Some(serde_json::Value::Object(object)), ..Default::default() };
    let updated = b.update_task("t1", &task.id, &update).unwrap();
    assert_eq!(updated.metadata.unwrap()["k"].as_str(), Some("v"));
    assert_eq!(b.store.rows[0].metadata.as_deref(), Some(r#"{"k":"v"}"#));
}

#[test]
fn the_board_knows_its_user() {
    assert_eq!(TaskBoard::new().user_id(), "system_default_user");
    assert_eq!(TaskBoard::new_for_user("u1").user_id(), "u1");
    assert_eq!(TaskBoard::new().engagement_id(), None);
}

#[test]
fn tasks_are_isolated_per_engagement_and_include_expected_output_result() {
    let seeded = |id: &str, engagement: &str| {
        let mut row = task_row(id, Some(engagement), &[], &[]);
        row.expected_output = Some(format!("expected of {id}"));
        row.result = Some(format!("result of {id}"));
        row
    };
    let store = TaskStore::new(vec![seeded("task-e1", "e1"), seeded("task-e2", "e2")]);
    let t1 = TaskBoard::new().with_engagement("e1").list_tasks(&store, "t1");
    let t2 = TaskBoard::new().with_engagement("e2").list_tasks(&store, "t1");
    assert_eq!(t1.len(), 1);
    assert_eq!(t1[0].id, "task-e1", "e1 tasks returns ONLY e1's task");
    assert_eq!(t2.len(), 1);
    assert_eq!(t2[0].id, "task-e2", "e2 tasks returns ONLY e2's task");
    assert_eq!(t1[0].expected_output.as_deref(), Some("expected of task-e1"));
    assert_eq!(t1[0].result.as_deref(), Some("result of task-e1"));
    assert!(TaskBoard::new().with_engagement("e3").list_tasks(&store, "t1").is_empty());
}
