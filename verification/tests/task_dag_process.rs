//! Tasks never wait on themselves, and a sequential team does one at a time.
use aionui_team::error::TeamError;
use aionui_team::graph::{find_cyclic, reaches_task, TaskEdges};
use aionui_team::scheduler::{Slot, TaskProcess, TeammateManager, TeammateRole};
use aionui_team::task::{TaskStatus, TeamTask};
use aionui_team::task_board::{TaskBoard, TaskStore, TaskUpdate};

struct Bench {
    board: TaskBoard,
    store: TaskStore,
    next: i64,
}

impl Bench {
    fn new(board: TaskBoard) -> Bench {
        Bench { board, store: TaskStore::new(Vec::new()), next: 0 }
    }

    fn create_task(
        &mut self,
        team: &str,
        subject: &str,
        description: Option<&str>,
        owner: Option<&str>,
        blocked_by: &[String],
        expected_output: Option<&str>,
    ) -> Result<TeamTask, TeamError> {
        self.next += 1;
        let id = format!("task-{}", self.next);
        self.board.create_task(
            &mut self.store,
            &id,
            self.next,
            team,
            subject,
            description,
            owner,
            blocked_by,
            expected_output,
        )
    }

    fn update_task(&mut self, team: &str, id: &str, update: &TaskUpdate) -> Result<TeamTask, TeamError> {
        self.next += 1;
        self.board.update_task(&mut self.store, self.next, team, id, update)
    }

    fn list_tasks(&self, team: &str) -> Vec<TeamTask> {
        self.board.list_tasks(&self.store, team)
    }


    fn simple(&mut self, subject: &str) -> TeamTask {
        self.create_task("t1", subject, None, None, &[], None).unwrap()
    }

    fn after(&mut self, subject: &str, deps: &[&TeamTask]) -> TeamTask {
        let ids: Vec<String> = deps.iter().map(|t| t.id.clone()).collect();
        self.create_task("t1", subject, None, None, &ids, None).unwrap()
    }

}

fn status(s: TaskStatus) -> TaskUpdate {
    TaskUpdate { status: Some(s), ..Default::default() }
}

fn bench() -> Bench {
    Bench::new(TaskBoard::new())
}

fn waits_on(ids: &[&TeamTask]) -> TaskUpdate {
    let ids = ids.iter().map(|t| t.id.clone()).collect();
    TaskUpdate { blocked_by: Some(ids), ..Default::default() }
}

fn stored(b: &Bench, id: &str) -> String {
    b.store.rows.iter().find(|r| r.id == id).unwrap().blocked_by.clone()
}

#[test]
fn update_adding_back_edge_is_rejected_and_leaves_edges_unchanged() {
    let mut bench = bench();
    let a = bench.simple("A");
    let b = bench.after("B", &[&a]);
    assert!(a.blocked_by.is_empty());
    match bench.update_task("t1", &a.id, &waits_on(&[&b])) {
        Err(TeamError::CyclicDependency { task_id, dependency }) => {
            assert_eq!(task_id, a.id);
            assert_eq!(dependency, b.id);
        }
        other => panic!("expected CyclicDependency, got {other:?}"),
    }
    assert_eq!(stored(&bench, &a.id), "[]", "rejected update must not mutate edges");
}

#[test]
fn update_self_edge_is_rejected() {
    let mut bench = bench();
    let a = bench.simple("A");
    match bench.update_task("t1", &a.id, &waits_on(&[&a])) {
        Err(TeamError::CyclicDependency { task_id, dependency }) => {
            assert_eq!(task_id, a.id);
            assert_eq!(dependency, a.id, "self-edge dependency is the task itself");
        }
        other => panic!("expected CyclicDependency, got {other:?}"),
    }
    assert_eq!(stored(&bench, &a.id), "[]", "rejected self-edge update must not persist");
}

#[test]
fn update_longer_cycle_is_rejected() {
    let mut bench = bench();
    let a = bench.simple("A");
    let b = bench.after("B", &[&a]);
    let c = bench.after("C", &[&b]);
    match bench.update_task("t1", &a.id, &waits_on(&[&c])) {
        Err(TeamError::CyclicDependency { task_id, dependency }) => {
            assert_eq!(task_id, a.id);
            assert_eq!(dependency, c.id);
        }
        other => panic!("expected CyclicDependency, got {other:?}"),
    }
}

#[test]
fn linear_chain_is_accepted() {
    let mut bench = bench();
    let a = bench.simple("A");
    let b = bench.after("B", &[&a]);
    let c = bench.after("C", &[&b]);
    assert_eq!(c.blocked_by, vec![b.id.clone()]);
}

#[test]
fn diamond_is_accepted() {
    let mut bench = bench();
    let a = bench.simple("A");
    let b = bench.after("B", &[&a]);
    let c = bench.after("C", &[&a]);
    let d = bench.after("D", &[&b, &c]);
    assert_eq!(d.blocked_by.len(), 2);
}

#[test]
fn update_replacing_blocked_by_with_valid_edges_is_accepted() {
    let mut bench = bench();
    let a = bench.simple("A");
    let b = bench.simple("B");
    let c = bench.after("C", &[&a]);
    let updated = bench.update_task("t1", &c.id, &waits_on(&[&b])).unwrap();
    assert_eq!(updated.blocked_by, vec![b.id]);
}

#[test]
fn a_new_task_that_closes_a_cycle_is_rejected() {
    let mut bench = bench();
    let a = bench.simple("A");
    // Task A waits on an id that no task has yet.
    let update = TaskUpdate { blocked_by: Some(vec!["task-9".to_string()]), ..Default::default() };
    bench.update_task("t1", &a.id, &update).unwrap();
    let deps = [a.id.clone()];
    let r = bench.board.create_task(&mut bench.store, "task-9", 9, "t1", "N", None, None, &deps, None);
    assert!(matches!(r, Err(TeamError::CyclicDependency { .. })));
    assert_eq!(bench.store.rows.len(), 1);
}

#[test]
fn reachability_follows_edges() {
    let edge = |id: &str, deps: &[&str]| TaskEdges {
        id: id.to_string(),
        deps: deps.iter().map(|d| d.to_string()).collect(),
    };
    let g = [edge("a", &["b", "c"]), edge("b", &["d"]), edge("c", &["d"]), edge("d", &[])];
    assert!(reaches_task(&g, "a", "d"));
    assert!(reaches_task(&g, "d", "d"));
    assert!(!reaches_task(&g, "d", "a"));
    assert!(!reaches_task(&g, "b", "c"));
    let deps = ["c".to_string(), "a".to_string()];
    assert_eq!(find_cyclic(&g, "d", &deps), Some("c".to_string()));
    assert_eq!(find_cyclic(&g, "a", &["d".to_string()]), None);
}

fn manager(process: TaskProcess) -> TeammateManager {
    TeammateManager {
        team_id: "t1".to_string(),
        process,
        slots: vec![Slot { slot_id: "worker-1".to_string(), role: TeammateRole::Teammate }],
        task_board: TaskBoard::new(),
        pending_task_results: Vec::new(),
    }
}

#[test]
fn sequential_engagement_allows_only_one_in_progress_task() {
    let mut bench = bench();
    let mgr = manager(TaskProcess::Sequential);
    let a = bench.create_task("t1", "A", None, Some("worker-1"), &[], None).unwrap();
    let b = bench.create_task("t1", "B", None, Some("worker-1"), &[], None).unwrap();

    let started =
        mgr.update_task(&mut bench.store, 9, &a.id, Some("in_progress"), None, None, None).unwrap();
    assert_eq!(started.status, TaskStatus::InProgress);
    let current = bench.board.in_progress_task(&bench.store, "t1");
    assert_eq!(current.map(|t| t.id), Some(a.id.clone()));
    let next = bench.board.next_sequential_ready(&bench.store, "t1");
    assert_eq!(next.map(|t| t.id), Some(b.id.clone()));

    match mgr.update_task(&mut bench.store, 9, &b.id, Some("in_progress"), None, None, None) {
        Err(TeamError::SequentialBusy { task_id, current_task_id }) => {
            assert_eq!(task_id, b.id);
            assert_eq!(current_task_id, a.id);
        }
        other => panic!("expected SequentialBusy, got {other:?}"),
    }
    let listed = bench.list_tasks("t1");
    assert_eq!(listed.iter().find(|t| t.id == b.id).unwrap().status, TaskStatus::Pending);
    let current = bench.board.in_progress_task(&bench.store, "t1");
    assert_eq!(current.map(|t| t.id), Some(a.id.clone()));

    mgr.update_task(&mut bench.store, 9, &a.id, Some("in_progress"), None, None, None)
        .expect("same task re-marking itself in_progress is allowed");

    let completed =
        mgr.update_task(&mut bench.store, 9, &a.id, Some("completed"), None, None, None).unwrap();
    assert_eq!(completed.status, TaskStatus::Completed);
    assert!(bench.board.in_progress_task(&bench.store, "t1").is_none());
    let next = bench.board.next_sequential_ready(&bench.store, "t1");
    assert_eq!(next.map(|t| t.id), Some(b.id.clone()));
    let started_b =
        mgr.update_task(&mut bench.store, 9, &b.id, Some("in_progress"), None, None, None).unwrap();
    assert_eq!(started_b.status, TaskStatus::InProgress);
}

#[test]
fn next_sequential_ready_skips_blocked_and_picks_oldest() {
    let mut bench = bench();
    let b = bench.create_task("t1", "B", None, Some("worker-1"), &[], None).unwrap();
    let c = bench.create_task("t1", "C", None, Some("worker-1"), &[b.id.clone()], None).unwrap();
    assert!(!c.blocked_by.is_empty());
    let next = bench.board.next_sequential_ready(&bench.store, "t1");
    assert_eq!(next.map(|t| t.id), Some(b.id.clone()), "blocked C must not be picked");
    bench.update_task("t1", &b.id, &status(TaskStatus::InProgress)).unwrap();
    assert!(bench.board.next_sequential_ready(&bench.store, "t1").is_none());
}

#[test]
fn hierarchical_default_allows_concurrent_in_progress_tasks() {
    let mut bench = bench();
    let mgr = manager(TaskProcess::Hierarchical);
    let a = bench.create_task("t1", "A", None, Some("worker-1"), &[], None).unwrap();
    let b = bench.create_task("t1", "B", None, Some("worker-1"), &[], None).unwrap();
    for id in [&a.id, &b.id] {
        mgr.update_task(&mut bench.store, 9, id, Some("in_progress"), None, None, None).unwrap();
    }
    let running =
        bench.list_tasks("t1").iter().filter(|t| t.status == TaskStatus::InProgress).count();
    assert_eq!(running, 2, "both tasks run concurrently under the default process");
}

#[test]
fn an_unknown_status_changes_no_status() {
    let mut bench = bench();
    let mgr = manager(TaskProcess::Sequential);
    let a = mgr.create_task(&mut bench.store, "a", 1, "A", None, None, &[], None).unwrap();
    let u = mgr
        .update_task(&mut bench.store, 9, &a.id, Some("paused"), Some("d".to_string()), None, None)
        .unwrap();
    assert_eq!(u.status, TaskStatus::Pending);
    assert_eq!(u.description.as_deref(), Some("d"));
}
