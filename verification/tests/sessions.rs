//! The sessions that run, and stopping those that have nothing to do.
use aionui_team::config::{TeamToolContext, TeamToolErrorCode, TeamToolTransport};
use aionui_team::error::TeamError;
use aionui_team::idle::{
    is_idle_collectable_team_member, ConversationStatus, MemberActivity, MemberTask,
    SessionActivity,
};
use aionui_team::runtime::{
    starting_slots, RuntimeConstraint, SlotWork, StatusText, TeamAgentRuntimeStatus, TeamRunStatus,
    TeamSessionStatus,
};
use aionui_team::scheduler::TeammateRole;
use aionui_team::sessions::{SessionInfo, TeamSessionService};
use aionui_team::teams::new_team;

fn session(generation: u64, user: &str, team: &str, engagement: &str) -> SessionInfo {
    SessionInfo {
        generation,
        user_id: user.to_string(),
        team_id: team.to_string(),
        engagement_id: engagement.to_string(),
    }
}

#[test]
fn stop_sessions_for_user_keeps_other_user_sessions() {
    let mut svc = TeamSessionService::new();
    svc.publish_session(&session(1, "user-test", "owned", "owned"));
    svc.publish_session(&session(2, "user-other", "other", "other"));
    assert_eq!(svc.stop_sessions_for_user("user-test"), 1);
    assert_eq!(svc.all_sessions().len(), 1);
    assert!(svc.session_of("owned").is_none());
    assert!(svc.session_of("other").is_some());
}

#[test]
fn all_sessions_of_a_user_are_stopped_and_counted() {
    let mut svc = TeamSessionService::new();
    svc.publish_session(&session(1, "user-a", "ta", "ea"));
    svc.publish_session(&session(2, "user-b", "tb", "eb"));
    svc.publish_session(&session(3, "user-a", "tc", "ec"));
    assert_eq!(svc.sessions_for_user("user-a").len(), 2);
    assert_eq!(svc.handle_assistant_mcp_binding_changed("user-b").len(), 1);
    assert_eq!(svc.stop_sessions_for_user("user-a"), 2);
    assert_eq!(svc.stop_sessions_for_user("user-a"), 0);
    assert_eq!(svc.all_sessions().len(), 1);
    assert_eq!(svc.get_session_user_id("tb").as_deref(), Some("user-b"));
    assert_eq!(svc.get_session_user_id("ta"), None);
}

#[test]
fn session_map_is_keyed_by_engagement_not_team() {
    let mut svc = TeamSessionService::new();
    svc.publish_session(&session(1, "u", "t", "e1"));
    svc.publish_session(&session(2, "u", "t", "e2"));
    assert_eq!(svc.all_sessions().len(), 2);
    assert_eq!(svc.session_of("e1").unwrap().generation, 1);
    assert!(svc.session_of("t").is_none());
    assert_eq!(svc.stop_session_unchecked("e1").unwrap().generation, 1);
    assert!(svc.stop_session_unchecked("e1").is_none());
    assert_eq!(svc.published_session("t").unwrap().engagement_id, "e2");
    let keys: Vec<String> = svc.stop_sessions_for_team("t").into_iter().map(|e| e.key).collect();
    assert_eq!(keys, ["e2"]);
    assert!(matches!(svc.published_session("t"), Err(TeamError::SessionNotFound(ref x)) if x == "t"));
}

#[test]
fn replaced_session_cannot_publish_dynamic_runtime_ready() {
    let mut svc = TeamSessionService::new();
    let old = session(1, "u", "t", "e");
    svc.publish_session(&old);
    assert_eq!(
        svc.publish_member_runtime_ready_if_current(&old),
        Some(TeamAgentRuntimeStatus::Ready)
    );
    let starting = svc.publish_member_runtime_starting_if_current(&old).unwrap();
    assert_eq!(starting.status, TeamSessionStatus::Starting);
    let new = session(2, "u", "t", "e");
    assert_eq!(svc.publish_session(&new).unwrap().generation, 1);
    assert!(svc.capture_published_session(&old).is_none());
    assert!(svc.publish_member_runtime_ready_if_current(&old).is_none());
    assert!(svc.publish_member_runtime_starting_if_current(&old).is_none());
    let failed = svc.publish_member_runtime_failed_if_current(&new).unwrap();
    assert_eq!((failed.status, failed.text), (TeamSessionStatus::Failed, StatusText::OfFailure));
}

#[test]
fn stale_cleanup_does_not_kill_replacement_runtime() {
    let mut svc = TeamSessionService::new();
    let old = session(1, "u", "t", "e");
    assert!(svc.cleanup_stale_member_runtime_task(&old), "nothing else runs");
    svc.publish_session(&old);
    assert!(svc.cleanup_stale_member_runtime_task(&old));
    svc.publish_session(&session(2, "u", "t", "e"));
    assert!(!svc.cleanup_stale_member_runtime_task(&old));
}

#[test]
fn only_the_owner_stops_a_session() {
    let mut svc = TeamSessionService::new();
    svc.publish_session(&session(1, "u", "t", "e"));
    let team = new_team("t", "u", "T", "", Vec::new(), None, None, None, 1);
    assert!(matches!(
        svc.stop_session(Some(&team), "x", "t", "e"),
        Err(TeamError::TeamNotFound(_))
    ));
    assert_eq!(svc.all_sessions().len(), 1);
    assert!(svc.stop_session(Some(&team), "u", "t", "e").unwrap().is_some());
    assert!(svc.all_sessions().is_empty());
}

#[test]
fn idle_collectable_team_member_accepts_idle_pending_aionrs_runtime() {
    let now = 1_700_000_000_000i64;
    let task = MemberTask {
        status: Some(ConversationStatus::Pending),
        last_activity_at: now - 600_000,
    };
    assert!(is_idle_collectable_team_member(&task, now, 300_000));
}

#[test]
fn idle_collectable_team_member_rejects_running_aionrs_runtime() {
    let now = 1_700_000_000_000i64;
    let task = MemberTask {
        status: Some(ConversationStatus::Running),
        last_activity_at: now - 600_000,
    };
    assert!(!is_idle_collectable_team_member(&task, now, 300_000));
}

#[test]
fn the_threshold_itself_is_not_idle() {
    let at = |t: i64| MemberTask { status: None, last_activity_at: t };
    assert!(!is_idle_collectable_team_member(&at(0), 300, 300));
    assert!(is_idle_collectable_team_member(&at(0), 301, 300));
    assert!(is_idle_collectable_team_member(&at(i64::MIN), i64::MAX, i64::MAX - 1));
    assert!(!is_idle_collectable_team_member(&at(i64::MAX), i64::MIN, i64::MIN));
}

fn idle_member(conversation: &str) -> MemberActivity {
    MemberActivity {
        conversation_id: conversation.to_string(),
        leased: false,
        task: Some(MemberTask {
            status: Some(ConversationStatus::Finished),
            last_activity_at: 0,
        }),
    }
}

fn activity(engagement: &str, members: Vec<MemberActivity>) -> SessionActivity {
    SessionActivity { session: session(1, "u", "t", engagement), run_active: false, members }
}

fn strings(v: &[&str]) -> Vec<String> {
    v.iter().map(|s| s.to_string()).collect()
}

#[test]
fn idle_cleanup_stops_team_session_and_kills_all_members_when_team_is_collectable() {
    let mut svc = TeamSessionService::new();
    svc.publish_session(&session(1, "u", "t", "e"));
    let seen = [activity("e", vec![idle_member("c1"), idle_member("c2")])];
    let r = svc.cleanup_idle_team_runtime_tasks(&strings(&["c1"]), &seen, 1_000_000, 300_000);
    assert_eq!(r.stopped.len(), 1);
    assert_eq!(r.stopped[0].position, 0);
    assert_eq!(r.stopped[0].conversations, ["c1", "c2"]);
    assert!(r.unhandled.is_empty());
    assert!(svc.all_sessions().is_empty());
}

#[test]
fn idle_cleanup_broadcasts_team_session_stopped() {
    let mut svc = TeamSessionService::new();
    svc.publish_session(&session(1, "u", "t", "e"));
    let seen = [activity("e", vec![idle_member("c1"), idle_member("c2")])];
    let r = svc.cleanup_idle_team_runtime_tasks(&strings(&["c1"]), &seen, 1_000_000, 300_000);
    assert!(r.unhandled.is_empty());
    assert!(svc.all_sessions().is_empty());
    let stopped: Vec<&str> = r
        .stopped
        .iter()
        .filter(|s| s.status.status == TeamSessionStatus::Stopped)
        .map(|s| seen[s.position].session.team_id.as_str())
        .collect();
    assert_eq!(stopped, ["t"], "idle cleanup must announce exactly one stopped status");
    assert_eq!(r.stopped[0].session.as_ref().unwrap().generation, 1);
}

#[test]
fn idle_cleanup_stops_team_session_when_aionrs_member_is_idle_pending() {
    let mut svc = TeamSessionService::new();
    svc.publish_session(&session(1, "u", "t", "e"));
    let mut pending = idle_member("c3");
    pending.task =
        Some(MemberTask { status: Some(ConversationStatus::Pending), last_activity_at: 0 });
    let seen = [activity("e", vec![idle_member("c1"), idle_member("c2"), pending])];
    let idle = strings(&["c1", "c2"]);
    let r = svc.cleanup_idle_team_runtime_tasks(&idle, &seen, 1_000_000, 300_000);
    assert!(r.unhandled.is_empty());
    assert!(svc.all_sessions().is_empty());
}

#[test]
fn idle_cleanup_leaves_busy_sessions_and_hands_back_strangers() {
    let mut svc = TeamSessionService::new();
    for e in ["run", "lease", "busy", "calm", "untouched"] {
        svc.publish_session(&session(1, "u", "t", e));
    }
    let mut run = activity("run", vec![idle_member("a")]);
    run.run_active = true;
    let mut leased = idle_member("b2");
    leased.leased = true;
    let lease = activity("lease", vec![idle_member("b"), leased]);
    let mut running = idle_member("c2");
    running.task =
        Some(MemberTask { status: Some(ConversationStatus::Running), last_activity_at: 0 });
    let busy = activity("busy", vec![idle_member("c"), running]);
    let mut taskless = idle_member("d2");
    taskless.task = None;
    let calm = activity("calm", vec![idle_member("d"), taskless]);
    let untouched = activity("untouched", vec![idle_member("e")]);
    let seen = [run, lease, busy, calm, untouched];
    let idle = strings(&["x", "a", "b", "c", "d", "y"]);
    let r = svc.cleanup_idle_team_runtime_tasks(&idle, &seen, 1_000_000, 300_000);
    let positions: Vec<usize> = r.stopped.iter().map(|s| s.position).collect();
    assert_eq!(positions, [3]);
    assert_eq!(r.stopped[0].conversations, ["d", "d2"]);
    assert_eq!(r.unhandled, strings(&["x", "y"]));
    assert_eq!(svc.all_sessions().len(), 4);
    assert!(svc.session_of("calm").is_none());
    let r = svc.cleanup_idle_team_runtime_tasks(&[], &seen, 1_000_000, 300_000);
    assert!(r.stopped.is_empty() && r.unhandled.is_empty());
}

fn work() -> Vec<SlotWork> {
    vec![
        SlotWork { slot_id: "lead".to_string(), constraint: RuntimeConstraint::Ready },
        SlotWork { slot_id: "worker".to_string(), constraint: RuntimeConstraint::Starting },
    ]
}

#[test]
fn slots_that_start_are_found() {
    assert_eq!(starting_slots(&work()), ["worker"]);
    let failed = SlotWork { slot_id: "w".to_string(), constraint: RuntimeConstraint::Failed };
    assert!(starting_slots(&[failed]).is_empty());
}

#[test]
fn run_state_returns_none_without_session_and_does_not_create_session() {
    let mut svc = TeamSessionService::new();
    let team = new_team("t", "u", "T", "", Vec::new(), None, None, None, 1);
    let run = Some(TeamRunStatus::Running);
    let state = svc.get_run_state(Some(&team), "u", "t", "e", run, work()).unwrap();
    assert_eq!((state.session_generation, state.active_run), (None, None));
    assert!(state.slot_work.is_empty());
    assert!(svc.all_sessions().is_empty());
    svc.publish_session(&session(4, "u", "t", "e"));
    let state = svc.get_run_state(Some(&team), "u", "t", "e", run, work()).unwrap();
    assert_eq!((state.session_generation, state.active_run), (Some(4), run));
    let slots: Vec<&str> = state.slot_work.iter().map(|w| w.slot_id.as_str()).collect();
    assert_eq!(slots, ["lead", "worker"]);
    assert_eq!(state.slot_work[1].constraint, RuntimeConstraint::Starting);
    let done = Some(TeamRunStatus::Completed);
    let state = svc.get_run_state(Some(&team), "u", "t", "e", done, Vec::new()).unwrap();
    assert_eq!(state.active_run, None);
    assert!(state.slot_work.is_empty());
    assert!(svc.get_run_state(Some(&team), "x", "t", "e", run, Vec::new()).is_err());
}

#[test]
fn tools_need_a_running_session() {
    let mut svc = TeamSessionService::new();
    let worker = TeamToolContext {
        team_id: "t".to_string(),
        caller_slot_id: "worker".to_string(),
        caller_role: TeammateRole::Teammate,
        user_id: "u".to_string(),
        conversation_id: "c".to_string(),
        transport: TeamToolTransport::CliAssumed,
    };
    let e = svc.execute_team_tool(&worker).unwrap_err();
    assert_eq!(e.code, TeamToolErrorCode::TeamNotFound);
    assert_eq!(e.message, "active team session not found");
    svc.publish_session(&session(4, "u", "t", "e"));
    assert_eq!(svc.execute_team_tool(&worker).unwrap().generation, 4);
}
