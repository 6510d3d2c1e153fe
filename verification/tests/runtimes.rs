//! Starting, bringing in line, restarting, clearing, adding and removing
//! members.
use aionui_team::addition::{Addition, AdditionAction, AdditionEvent};
use aionui_team::context_reset::{
    ContextReset, ResetAction, ResetEvent, TeamContextResetRuntimeStatus, TeamContextResetStatus,
};
use aionui_team::error::{TeamContextResetAvailability, TeamError};
use aionui_team::reconcile::{
    announces_starting, can_attach, complete_member_runtime_reconciliation, MemberOutcome,
    ReconcileRequest, ReconcileWork, ReserveAction, ReserveEvent, ReserveRun,
};
use aionui_team::removal::{Removal, RemovalAction, RemovalEvent};
use aionui_team::restart::{MemberTarget, Restart, RestartAction, RestartEvent};
use aionui_team::roster::{EngagementMember, TeamAgent};
use aionui_team::runtime::{
    is_active_run, mcp_refresh_requested, refresh_member_mcp_binding, team_missing_text,
    AttachOutcome, BeginRemove,
    McpRefreshAction, McpRefreshDisposition, MemberRuntimeSnapshot, ReserveAttach,
    RuntimeRestartRejection, StatusText, TeamAgentRuntimeStatus, TeamRunStatus, TeamSessionPhase,
    TeamSessionStatus,
};
use aionui_team::scheduler::TeammateRole;
use aionui_team::session_start::{
    failed_status, ready_status, starting_status, SessionStart, StartAction, StartEvent,
};
use aionui_team::sessions::{SessionInfo, TeamSessionService};
use aionui_team::teams::new_team;

fn agent(slot: &str, role: TeammateRole) -> TeamAgent {
    TeamAgent {
        slot_id: slot.to_string(),
        name: slot.to_string(),
        role,
        conversation_id: format!("conv-{slot}"),
        backend: "acp".to_string(),
        model: "m1".to_string(),
        assistant_id: None,
        status: None,
        conversation_type: None,
        cli_path: None,
    }
}

fn roster() -> Vec<TeamAgent> {
    vec![
        agent("w1", TeammateRole::Teammate),
        agent("lead", TeammateRole::Lead),
        agent("w2", TeammateRole::Teammate),
    ]
}

fn slots_of(agents: &[TeamAgent]) -> Vec<String> {
    agents.iter().map(|a| a.slot_id.clone()).collect()
}

fn failure(reason: &str) -> AttachOutcome {
    AttachOutcome::Failed { public_reason: reason.to_string() }
}

/// A start that has come to the point at which the lead is asked for.
fn start_with_lead() -> SessionStart {
    let mut s = SessionStart::new("t");
    s.step(StartEvent::TeamLoaded { project_bound: true });
    s.step(StartEvent::ModelsRepaired);
    s.step(StartEvent::NoSession);
    s.step(StartEvent::SessionStarted { roster: roster() });
    s
}

#[test]
fn a_session_starts_with_its_lead_and_teammates_sleep() {
    let mut s = SessionStart::new("t");
    assert_eq!(
        s.step(StartEvent::TeamLoaded { project_bound: true }).actions,
        [StartAction::RepairModels]
    );
    assert_eq!(s.step(StartEvent::ModelsRepaired).actions, [StartAction::LookForSession]);
    assert_eq!(
        s.step(StartEvent::NoSession).actions,
        [
            StartAction::Announce(starting_status(TeamSessionPhase::LoadingTeam)),
            StartAction::Announce(starting_status(TeamSessionPhase::StartingBridge)),
            StartAction::EnsureMembers,
            StartAction::StartSession,
        ]
    );
    assert_eq!(
        s.step(StartEvent::SessionStarted { roster: roster() }).actions,
        [
            StartAction::Announce(starting_status(TeamSessionPhase::AttachingAgents)),
            StartAction::PublishSession,
            StartAction::AnnounceMember(1, TeamAgentRuntimeStatus::Pending),
            StartAction::ReserveAttach(1),
        ]
    );
    assert_eq!(s.step(StartEvent::Reserved(ReserveAttach::Start)).actions, [StartAction::Attach]);
    // An event that is not awaited changes nothing.
    assert!(s.step(StartEvent::NoSession).actions.is_empty());
    assert_eq!(
        s.step(StartEvent::Attached(AttachOutcome::Ready)).actions,
        [
            StartAction::AnnounceMember(0, TeamAgentRuntimeStatus::Dormant),
            StartAction::AnnounceMember(2, TeamAgentRuntimeStatus::Dormant),
            StartAction::Announce(starting_status(TeamSessionPhase::Recovering)),
            StartAction::DrainRecovery,
        ]
    );
    let last = s.step(StartEvent::Drained);
    assert_eq!(last.actions, [StartAction::Announce(ready_status(3))]);
    assert!(matches!(last.result, Some(Ok(()))));
}

#[test]
fn a_failed_start_takes_its_session_down() {
    let mut s = start_with_lead();
    s.step(StartEvent::Reserved(ReserveAttach::Join));
    let step = s.step(StartEvent::Attached(failure("no binary")));
    assert_eq!(
        step.actions,
        [
            StartAction::Announce(failed_status(
                TeamSessionPhase::AttachingAgents,
                StatusText::OfFailure
            )),
            StartAction::StopSession,
            StartAction::UnpublishSession,
        ]
    );
    match step.result {
        Some(Err(TeamError::MemberRuntimeFailed { slot_id, conversation_id, public_reason, .. })) => {
            assert_eq!((slot_id.as_str(), conversation_id.as_str()), ("lead", "conv-lead"));
            assert_eq!(public_reason, "no binary");
        }
        other => panic!("expected MemberRuntimeFailed, got {other:?}"),
    }
    let step = start_with_lead().step(StartEvent::Reserved(ReserveAttach::SessionStopped));
    assert_eq!(step.actions, [StartAction::StopSession, StartAction::UnpublishSession]);
    assert!(matches!(step.result, Some(Err(TeamError::InvalidRequest(ref x)))
        if x == "team session stopped during leader warmup"));
}

#[test]
fn a_team_that_cannot_be_read_is_reported_to_who_asked() {
    let mut s = SessionStart::new("t");
    let step = s.step(StartEvent::TeamMissing);
    assert_eq!(
        step.actions,
        [StartAction::AnnounceToRequester(failed_status(
            TeamSessionPhase::LoadingTeam,
            StatusText::TeamMissing
        ))]
    );
    assert!(matches!(step.result, Some(Err(TeamError::TeamNotFound(ref x))) if x == "t"));
    assert_eq!(team_missing_text("t"), "team not found: t");
    let mut s = SessionStart::new("t");
    let step = s.step(StartEvent::TeamReadFailed(TeamError::Database("locked".to_string())));
    assert!(matches!(step.result, Some(Err(TeamError::Database(ref x))) if x == "locked"));
    // One whose agents cannot be read is not announced at all.
    let mut s = SessionStart::new("t");
    let unreadable = serde_json::from_str::<serde_json::Value>("[").unwrap_err();
    let step = s.step(StartEvent::TeamUnreadable(TeamError::Json(unreadable)));
    assert!(step.actions.is_empty());
    assert!(matches!(step.result, Some(Err(TeamError::Json(_)))));
}

#[test]
fn a_team_without_a_lead_does_not_start() {
    let mut s = SessionStart::new("t");
    s.step(StartEvent::TeamLoaded { project_bound: false });
    s.step(StartEvent::ModelsRepaired);
    assert_eq!(s.step(StartEvent::NoSession).actions.len(), 3);
    let only = vec![agent("w", TeammateRole::Teammate)];
    let step = s.step(StartEvent::SessionStarted { roster: only });
    assert_eq!(step.actions.last(), Some(&StartAction::StopSession));
    assert!(!step.actions.contains(&StartAction::PublishSession));
    assert!(matches!(step.result, Some(Err(TeamError::InvalidRequest(ref x)))
        if x == "team has no lead agent"));
}

#[test]
fn a_running_session_is_brought_in_line_instead() {
    let mut s = SessionStart::new("t");
    s.step(StartEvent::TeamLoaded { project_bound: false });
    s.step(StartEvent::ModelsRepaired);
    let step = s.step(StartEvent::SessionRunning);
    assert_eq!(step.actions, [StartAction::ReconcileRunning]);
    assert!(step.result.is_none(), "how that ends is how the request ends");
}

fn seen(snapshot: MemberRuntimeSnapshot, has_task: bool) -> ReserveEvent {
    ReserveEvent::Snapshot { snapshot, has_task }
}

#[test]
fn ensure_session_repairs_only_missing_member_runtime_in_place() {
    let team = [agent("lead", TeammateRole::Lead), agent("worker", TeammateRole::Teammate)];
    let (mut run, first) = ReserveRun::new(&team, &slots_of(&team));
    assert_eq!(first, ReserveAction::Ask(0));
    // The process of the lead is gone.
    assert_eq!(
        run.step(seen(MemberRuntimeSnapshot::Ready, false)).action,
        ReserveAction::Request(0, ReconcileRequest::Repair)
    );
    let step = run.step(ReserveEvent::Reserved(ReserveAttach::Start));
    assert_eq!((step.announce_pending, step.action), (Some(0), ReserveAction::Ask(1)));
    // The worker sleeps and is not woken.
    let step = run.step(seen(MemberRuntimeSnapshot::Absent, false));
    assert_eq!((step.announce_pending, step.action), (None, ReserveAction::Finish));
    assert_eq!(run.work.len(), 1);
    assert!(run.work[0].owner && run.work[0].position == 0);
    assert!(announces_starting(&team, &run.work));
}

#[test]
fn a_teammate_without_a_process_is_repaired() {
    let (mut run, first) = ReserveRun::new(&roster(), &slots_of(&roster()));
    assert_eq!(first, ReserveAction::Ask(0));
    // A teammate that sleeps is passed over.
    assert_eq!(run.step(seen(MemberRuntimeSnapshot::Absent, false)).action, ReserveAction::Ask(1));
    // A lead that runs is left alone.
    assert_eq!(run.step(seen(MemberRuntimeSnapshot::Ready, true)).action, ReserveAction::Ask(2));
    // A teammate without a process is repaired.
    assert_eq!(
        run.step(seen(MemberRuntimeSnapshot::Ready, false)).action,
        ReserveAction::Request(2, ReconcileRequest::Repair)
    );
    let step = run.step(ReserveEvent::Reserved(ReserveAttach::Start));
    assert_eq!((step.announce_pending, step.action), (Some(2), ReserveAction::Finish));
    assert_eq!(run.work.len(), 1);
    assert!(run.work[0].owner && run.work[0].position == 2);
    assert!(!announces_starting(&roster(), &run.work));
}

#[test]
fn a_lead_is_always_asked_for_and_a_stop_ends_the_run() {
    let team = vec![agent("lead", TeammateRole::Lead), agent("w", TeammateRole::Teammate)];
    let (mut run, _) = ReserveRun::new(&team, &slots_of(&team));
    assert_eq!(
        run.step(seen(MemberRuntimeSnapshot::Absent, false)).action,
        ReserveAction::Request(0, ReconcileRequest::Attach)
    );
    let step = run.step(ReserveEvent::Reserved(ReserveAttach::Removing));
    assert_eq!((step.announce_pending, step.action), (None, ReserveAction::Ask(1)));
    assert!(announces_starting(&team, &run.work));
    let gone = MemberRuntimeSnapshot::Failed { public_reason: "x".to_string() };
    assert!(matches!(run.step(seen(gone, false)).action, ReserveAction::Request(1, ReconcileRequest::Attach)));
    let step = run.step(ReserveEvent::Reserved(ReserveAttach::SessionStopped));
    assert!(matches!(step.error, Some(TeamError::InvalidRequest(ref x))
        if x == "team session stopped during reconciliation reservation"));
    assert_eq!(run.step(ReserveEvent::Reserved(ReserveAttach::Start)).action, ReserveAction::Ignore);
    assert_eq!(ReserveRun::new(&[], &[]).1, ReserveAction::Finish);
}

#[test]
fn a_member_that_the_scheduler_lacks_is_put_back_first() {
    let team = roster();
    let (mut run, first) = ReserveRun::new(&team, &["lead".to_string()]);
    assert_eq!(first, ReserveAction::Schedule(0));
    assert_eq!(run.step(seen(MemberRuntimeSnapshot::Absent, false)).action, ReserveAction::Ask(1));
    assert_eq!(
        run.step(seen(MemberRuntimeSnapshot::Ready, true)).action,
        ReserveAction::Schedule(2)
    );
    assert_eq!(run.step(seen(MemberRuntimeSnapshot::Ready, true)).action, ReserveAction::Finish);
    assert!(run.work.is_empty());
}

#[test]
fn a_service_that_goes_away_starts_no_runtime() {
    let own = ReconcileWork { position: 0, owner: true };
    let joined = ReconcileWork { position: 1, owner: false };
    assert!(can_attach(&[joined, own], true).is_ok());
    assert!(can_attach(&[joined], false).is_ok());
    assert!(matches!(can_attach(&[joined, own], false), Err(TeamError::InvalidRequest(ref x))
        if x == "team service is shutting down"));
}

fn session(generation: u64) -> SessionInfo {
    SessionInfo {
        generation,
        user_id: "u".to_string(),
        team_id: "t".to_string(),
        engagement_id: "e".to_string(),
    }
}

fn outcome(slot: &str, role: TeammateRole, outcome: AttachOutcome) -> MemberOutcome {
    MemberOutcome { agent: agent(slot, role), outcome }
}

#[test]
fn a_failed_teammate_does_not_fail_the_team() {
    let outcomes = [
        outcome("w1", TeammateRole::Teammate, failure("broken")),
        outcome("gone", TeammateRole::Lead, failure("removed meanwhile")),
        outcome("lead", TeammateRole::Lead, AttachOutcome::Ready),
    ];
    let end = complete_member_runtime_reconciliation(
        "t", true, &Some(session(1)), &session(1), &roster(), &outcomes,
    );
    assert!(end.result.is_ok());
    assert_eq!(end.announce, Some(ready_status(3)));
}

#[test]
fn a_failed_lead_fails_the_team() {
    let outcomes = [
        outcome("w1", TeammateRole::Teammate, AttachOutcome::Ready),
        outcome("lead", TeammateRole::Lead, failure("broken")),
    ];
    let end = complete_member_runtime_reconciliation(
        "t", true, &Some(session(1)), &session(1), &roster(), &outcomes,
    );
    assert_eq!(
        end.announce,
        Some(failed_status(TeamSessionPhase::AttachingAgents, StatusText::OfFailure))
    );
    assert!(matches!(end.result, Err(TeamError::MemberRuntimeFailed { ref slot_id, .. }) if slot_id == "lead"));
    let stopped = [outcome("w2", TeammateRole::Teammate, AttachOutcome::SessionStopped)];
    let end = complete_member_runtime_reconciliation(
        "t", true, &Some(session(1)), &session(1), &roster(), &stopped,
    );
    assert!(matches!(end.result, Err(TeamError::InvalidRequest(ref x))
        if x == "team session stopped during reconciliation"));
    assert!(end.announce.is_none());
}

#[test]
fn no_work_reconciliation_rejects_replaced_session() {
    for current in [None, Some(session(2))] {
        let end = complete_member_runtime_reconciliation(
            "t", true, &current, &session(1), &roster(), &[],
        );
        assert!(matches!(end.result, Err(TeamError::SessionNotFound(ref x)) if x == "t"));
    }
    let end = complete_member_runtime_reconciliation(
        "t", false, &Some(session(1)), &session(1), &roster(), &[],
    );
    assert!(matches!(end.result, Err(TeamError::TeamNotFound(ref x)) if x == "t"));
}

fn target() -> MemberTarget {
    MemberTarget {
        team_id: "t".to_string(),
        slot_id: "w1".to_string(),
        conversation_id: "conv-w1".to_string(),
    }
}

fn found() -> RestartEvent {
    RestartEvent::SessionFound { conversation_id: "conv-live".to_string() }
}

#[test]
fn restart_agent_runtime_forces_a_ready_member_through_the_attach_chain() {
    let mut r = Restart::new(target(), false);
    assert_eq!(r.step(found()).actions, [RestartAction::ReadSnapshot]);
    assert_eq!(
        r.step(RestartEvent::Snapshot(MemberRuntimeSnapshot::Ready)).actions,
        [RestartAction::BeginRestart { allow_queued: false }]
    );
    assert_eq!(r.step(RestartEvent::HoldTaken).actions, [RestartAction::ReserveRestart]);
    assert_eq!(
        r.step(RestartEvent::Reserved(ReserveAttach::Start)).actions,
        [RestartAction::Announce(TeamAgentRuntimeStatus::Pending), RestartAction::Attach]
    );
    let end = r.step(RestartEvent::Attached(AttachOutcome::Ready));
    assert!(matches!(end.result, Some(Ok(()))));
}

#[test]
fn restart_agent_runtime_rejects_absent_and_failed_members() {
    let failed = MemberRuntimeSnapshot::Failed {
        public_reason: "Agent runtime failed to start".to_string(),
    };
    for snapshot in [MemberRuntimeSnapshot::Absent, failed] {
        let mut r = Restart::new(target(), false);
        r.step(found());
        let step = r.step(RestartEvent::Snapshot(snapshot));
        assert!(step.actions.is_empty());
        assert!(matches!(step.result, Some(Err(TeamError::RuntimeNotReady { ref conversation_id }))
            if conversation_id == "conv-live"));
    }
    let mut r = Restart::new(target(), false);
    r.step(found());
    let step = r.step(RestartEvent::Snapshot(MemberRuntimeSnapshot::Attaching));
    assert!(step.actions.is_empty());
    assert!(matches!(
        step.result,
        Some(Err(TeamError::MemberRuntimeStarting { ref team_id, ref slot_id, ref conversation_id }))
            if team_id == "t" && slot_id == "w1" && conversation_id == "conv-live"
    ));
    let mut r = Restart::new(target(), false);
    r.step(found());
    let step = r.step(RestartEvent::Snapshot(MemberRuntimeSnapshot::Removing));
    assert!(matches!(step.result, Some(Err(TeamError::InvalidRequest(ref x)))
        if x == "team member runtime is being removed: w1"));
}

#[test]
fn restart_agent_runtime_does_not_start_an_unpublished_team_session() {
    let mut r = Restart::new(target(), false);
    let step = r.step(RestartEvent::NoSession);
    assert!(step.actions.is_empty());
    assert!(matches!(step.result, Some(Err(TeamError::RuntimeNotReady { ref conversation_id }))
        if conversation_id == "conv-w1"));
    let mut r = Restart::new(target(), false);
    let step = r.step(RestartEvent::LookupFailed(TeamError::AgentNotFound("w1".to_string())));
    assert!(matches!(step.result, Some(Err(TeamError::AgentNotFound(_)))));
    let mut r = Restart::new(target(), false);
    let step = r.step(RestartEvent::ServiceGone);
    assert!(step.actions.is_empty());
    assert!(matches!(step.result, Some(Err(TeamError::InvalidRequest(ref x)))
        if x == "team service is shutting down"));
}

#[test]
fn only_a_restart_that_allows_queued_work_starts_the_session() {
    assert_eq!(Restart::new(target(), false).first_actions(), [RestartAction::LookForSession]);
    let mut r = Restart::new(target(), true);
    assert_eq!(r.first_actions(), [RestartAction::EnsureSession]);
    // What is found before the session is there is not awaited.
    assert!(r.step(found()).actions.is_empty());
    assert_eq!(r.step(RestartEvent::SessionEnsured).actions, [RestartAction::LookForSession]);
    let mut r = Restart::new(target(), true);
    let step = r.step(RestartEvent::EnsureFailed(TeamError::Database("disk".to_string())));
    assert!(step.actions.is_empty());
    assert!(matches!(step.result, Some(Err(TeamError::Database(ref x))) if x == "disk"));
    let mut r = Restart::new(target(), false);
    assert!(r.step(RestartEvent::SessionEnsured).actions.is_empty());
}

#[test]
fn restart_agent_runtime_rejects_active_work_without_killing_the_runtime() {
    let mut r = Restart::new(target(), false);
    r.step(found());
    assert_eq!(
        r.step(RestartEvent::Snapshot(MemberRuntimeSnapshot::Ready)).actions,
        [RestartAction::BeginRestart { allow_queued: false }]
    );
    let step = r.step(RestartEvent::HoldRefused(RuntimeRestartRejection::Busy));
    assert!(step.actions.is_empty());
    assert!(matches!(
        step.result,
        Some(Err(TeamError::MemberBusy { ref team_id, ref slot_id, ref conversation_id }))
            if team_id == "t" && slot_id == "w1" && conversation_id == "conv-live"
    ));
}

#[test]
fn restart_agent_runtime_rejects_a_stopped_member_registry() {
    let mut r = Restart::new(target(), false);
    r.step(found());
    let step = r.step(RestartEvent::Snapshot(MemberRuntimeSnapshot::SessionStopped));
    assert!(step.actions.is_empty());
    assert!(matches!(step.result, Some(Err(TeamError::RuntimeNotReady { ref conversation_id }))
        if conversation_id == "conv-live"));
}

#[test]
fn a_restart_that_allows_queued_work_asks_for_no_snapshot() {
    let mut r = Restart::new(target(), true);
    r.step(RestartEvent::SessionEnsured);
    assert_eq!(r.step(found()).actions, [RestartAction::BeginRestart { allow_queued: true }]);
    let step = r.step(RestartEvent::HoldRefused(RuntimeRestartRejection::Busy));
    assert!(matches!(step.result, Some(Err(TeamError::MemberBusy { .. }))));
}

#[test]
fn a_restart_without_a_grant_gives_its_hold_back() {
    let held = || {
        let mut r = Restart::new(target(), true);
        r.step(RestartEvent::SessionEnsured);
        r.step(found());
        r.step(RestartEvent::HoldTaken);
        r
    };
    let step = held().step(RestartEvent::Reserved(ReserveAttach::SessionStopped));
    assert_eq!(step.actions, [RestartAction::AbortRestart]);
    assert!(matches!(step.result, Some(Err(TeamError::SessionNotFound(ref x))) if x == "t"));
    let step = held().step(RestartEvent::Reserved(ReserveAttach::AlreadyReady));
    assert_eq!(step.actions, [RestartAction::AbortRestart]);
    assert!(matches!(step.result, Some(Err(TeamError::MemberBusy { .. }))));
    let mut r = held();
    r.step(RestartEvent::Reserved(ReserveAttach::Start));
    let step = r.step(RestartEvent::Attached(AttachOutcome::Removed));
    assert!(matches!(step.result, Some(Err(TeamError::AgentNotFound(ref x))) if x == "w1"));
    let mut r = held();
    r.step(RestartEvent::Reserved(ReserveAttach::Start));
    let step = r.step(RestartEvent::Attached(failure("why")));
    assert!(matches!(step.result, Some(Err(TeamError::MemberRuntimeFailed { ref public_reason, .. }))
        if public_reason == "why"));
}

/// A reset whose old runtime has ended, with so many messages that wait.
fn ended_reset_with(unread: usize) -> ContextReset {
    let mut r = ContextReset::new(target(), "acp");
    r.step(ResetEvent::Capability {
        availability: TeamContextResetAvailability::Ready,
        session_runs: true,
    });
    r.step(ResetEvent::HoldTaken);
    r.step(ResetEvent::Unread(unread));
    let step = r.step(ResetEvent::Reserved(ReserveAttach::Start));
    assert_eq!(
        step.actions,
        [ResetAction::AnnouncePending, ResetAction::Kill, ResetAction::ClearAnchor]
    );
    r
}

fn ended_reset() -> ContextReset {
    ended_reset_with(2)
}

#[test]
fn clear_agent_context_resets_anchor_and_runtime_state_without_membership_noise() {
    let mut r = ended_reset_with(1);
    assert_eq!(r.step(ResetEvent::Cleared(true)).actions, [ResetAction::RequireRolePrompt]);
    assert_eq!(r.step(ResetEvent::RolePrompt(true)).actions, [ResetAction::AttachAfterKill]);
    let end = r.step(ResetEvent::Attached(AttachOutcome::Ready));
    assert_eq!(end.actions, [ResetAction::Notice(TeamContextResetRuntimeStatus::Ready)]);
    let response = end.result.unwrap().unwrap();
    assert_eq!(response.reset_status, TeamContextResetStatus::Completed);
    assert_eq!(response.runtime_status, TeamContextResetRuntimeStatus::Ready);
    assert_eq!(response.preserved_unread_count, 1);
}

#[test]
fn clear_agent_context_reports_completed_when_fresh_runtime_attach_fails() {
    let mut r = ended_reset();
    r.step(ResetEvent::Cleared(true));
    r.step(ResetEvent::RolePrompt(true));
    let response = r.step(ResetEvent::Attached(failure("x"))).result.unwrap().unwrap();
    assert_eq!(response.reset_status, TeamContextResetStatus::Completed);
    assert_eq!(response.runtime_status, TeamContextResetRuntimeStatus::Failed);
    let mut r = ended_reset();
    r.step(ResetEvent::Cleared(true));
    r.step(ResetEvent::RolePrompt(false));
    let response = r.step(ResetEvent::Attached(AttachOutcome::Ready)).result.unwrap().unwrap();
    assert_eq!(response.runtime_status, TeamContextResetRuntimeStatus::Failed);
}

#[test]
fn an_ended_runtime_is_started_again_where_nothing_was_cleared() {
    let mut r = ended_reset();
    assert_eq!(r.step(ResetEvent::Cleared(false)).actions, [ResetAction::AttachAfterKill]);
    let response = r.step(ResetEvent::Attached(AttachOutcome::Ready)).result.unwrap().unwrap();
    assert_eq!(response.reset_status, TeamContextResetStatus::NotApplied);
    assert_eq!(response.runtime_status, TeamContextResetRuntimeStatus::Ready);
    let mut r = ended_reset();
    let step = r.step(ResetEvent::ClearFailed(TeamError::Database("disk".to_string())));
    assert_eq!(step.actions, [ResetAction::AttachAfterKill]);
    let end = r.step(ResetEvent::Attached(AttachOutcome::Ready));
    assert!(matches!(end.result, Some(Err(TeamError::Database(ref x))) if x == "disk"));
}

#[test]
fn clear_agent_context_rejects_queued_work_without_kill_or_anchor_change() {
    let mut r = ContextReset::new(target(), "acp");
    let step = r.step(ResetEvent::Capability {
        availability: TeamContextResetAvailability::Busy,
        session_runs: true,
    });
    assert!(step.actions.is_empty(), "neither a kill nor a cleared anchor");
    assert!(matches!(
        step.result,
        Some(Err(TeamError::ContextResetUnavailable {
            availability: TeamContextResetAvailability::Busy,
            ..
        }))
    ));
}

#[test]
fn a_reset_that_cannot_go_on_lets_the_runtime_be() {
    let mut r = ContextReset::new(target(), "acp");
    r.step(ResetEvent::Capability {
        availability: TeamContextResetAvailability::Ready,
        session_runs: true,
    });
    let step = r.step(ResetEvent::HoldRefused(RuntimeRestartRejection::Busy));
    assert!(step.actions.is_empty());
    assert!(matches!(step.result, Some(Err(TeamError::MemberBusy { .. }))));
    let mut r = ContextReset::new(target(), "acp");
    r.step(ResetEvent::Capability {
        availability: TeamContextResetAvailability::Ready,
        session_runs: true,
    });
    let step = r.step(ResetEvent::ServiceGone);
    assert!(step.actions.is_empty());
    assert!(matches!(step.result, Some(Err(TeamError::InvalidRequest(ref x)))
        if x == "team service is shutting down"));
    let mut r = ContextReset::new(target(), "acp");
    r.step(ResetEvent::Capability {
        availability: TeamContextResetAvailability::Ready,
        session_runs: true,
    });
    r.step(ResetEvent::HoldTaken);
    let step = r.step(ResetEvent::UnreadFailed(TeamError::Database("x".to_string())));
    assert_eq!(step.actions, [ResetAction::AbortRestart]);
}

fn reset_refusal(availability: TeamContextResetAvailability, session_runs: bool) -> TeamError {
    let mut r = ContextReset::new(target(), "acp");
    let step = r.step(ResetEvent::Capability { availability, session_runs });
    assert!(step.actions.is_empty());
    step.result.unwrap().unwrap_err()
}

#[test]
fn clear_agent_context_rejects_stopped_session_without_starting_or_mutating_it() {
    let e = reset_refusal(TeamContextResetAvailability::SessionStopped, false);
    assert!(matches!(e, TeamError::ContextResetUnavailable { availability, .. }
        if availability == TeamContextResetAvailability::SessionStopped));
    let e = reset_refusal(TeamContextResetAvailability::Ready, false);
    assert!(matches!(e, TeamError::ContextResetUnavailable { availability, .. }
        if availability == TeamContextResetAvailability::SessionStopped));
    let e = reset_refusal(TeamContextResetAvailability::Busy, true);
    assert!(matches!(e, TeamError::ContextResetUnavailable { availability, .. }
        if availability == TeamContextResetAvailability::Busy));
}

#[test]
fn clear_agent_context_rejects_wrong_owner_and_aionrs_before_kill() {
    let mut butler = agent("butler", TeammateRole::Teammate);
    butler.name = "Butler".to_string();
    butler.backend = "aionrs".to_string();
    let agents = vec![agent("lead", TeammateRole::Lead), butler];
    let team = new_team("t", "user-test", "Clear Unsupported", "", agents, None, None, None, 1);
    let clear = |user: &str, slot: &str| {
        TeamSessionService::clear_agent_context(Some(&team), user, "t", None, slot)
    };
    assert!(matches!(clear("other-user", "butler"), Err(TeamError::TeamNotFound(_))));
    let mut r = clear("user-test", "lead").unwrap();
    let step = r.step(ResetEvent::Capability {
        availability: TeamContextResetAvailability::LeaderNotTargetable,
        session_runs: true,
    });
    assert!(step.actions.is_empty());
    assert!(matches!(
        step.result,
        Some(Err(TeamError::ContextResetLeaderNotTargetable { ref slot_id, .. })) if slot_id == "lead"
    ));
    let mut r = clear("user-test", "butler").unwrap();
    assert_eq!(r.target.conversation_id, "conv-butler");
    let step = r.step(ResetEvent::Capability {
        availability: TeamContextResetAvailability::Unsupported,
        session_runs: true,
    });
    assert!(step.actions.is_empty());
    assert!(matches!(
        step.result,
        Some(Err(TeamError::MemberUnsupported { ref backend, .. })) if backend == "aionrs"
    ));
}

#[test]
fn clear_agent_context_resets_only_active_engagement_member_conversation() {
    let team = new_team("t", "u", "T", "", roster(), None, None, None, 1);
    let members = [EngagementMember {
        engagement_id: "e".to_string(),
        slot_id: "rt".to_string(),
        template_slot: "w1".to_string(),
        role: "teammate".to_string(),
        conversation_id: "conv-rt".to_string(),
    }];
    let r = TeamSessionService::clear_agent_context(Some(&team), "u", "t", Some(&members), "rt");
    assert_eq!(r.unwrap().target.conversation_id, "conv-rt");
    let r = TeamSessionService::restart_agent_runtime(Some(&team), "u", "t", Some(&members), "w1", false);
    assert!(matches!(r, Err(TeamError::AgentNotFound(ref x)) if x == "w1"));
    let r = TeamSessionService::ensure_session(Some(&team), "u", "t");
    assert_eq!(r.unwrap().team_id, "t");
    assert!(TeamSessionService::ensure_session(None, "u", "t").is_err());
}

fn remove(
    user: &str,
    members: Option<&[EngagementMember]>,
    slot: &str,
) -> Result<Removal, TeamError> {
    let team = new_team("t", "u", "T", "", roster(), None, None, None, 1);
    TeamSessionService::remove_agent(Some(&team), user, "t", members, slot)
}

fn removal() -> Removal {
    remove("u", None, "w1").unwrap()
}

fn begun(generation: u64, answer: BeginRemove) -> RemovalEvent {
    RemovalEvent::Begun { generation, answer }
}

/// A removal whose roster is stored, out of a session of the first generation.
fn stored_removal() -> Removal {
    let mut r = removal();
    r.step(begun(1, BeginRemove::Start));
    r.step(RemovalEvent::Killed);
    r.step(RemovalEvent::Reloaded { agents: roster() });
    r.step(RemovalEvent::Persisted);
    r
}

#[test]
fn remove_agent_destroys_only_active_engagement_member_conversation() {
    // The engagement that runs has one member of that template; another
    // engagement has a member of its own, with its own conversation.
    let members = [EngagementMember {
        engagement_id: "eng-a".to_string(),
        slot_id: "rt-a".to_string(),
        template_slot: "w1".to_string(),
        role: "teammate".to_string(),
        conversation_id: "conv-rt-a".to_string(),
    }];
    let r = remove("u", Some(&members), "rt-a").unwrap();
    assert_eq!(r.removed.conversation_id, "conv-rt-a");
    assert_eq!(r.template_slot, "w1");
    for slot in ["rt-b", "w1"] {
        let e = remove("u", Some(&members), slot);
        assert!(matches!(e, Err(TeamError::AgentNotFound(ref x)) if x == slot));
    }
}

#[test]
fn the_lead_cannot_be_removed() {
    let e = remove("u", None, "lead");
    assert!(matches!(e, Err(TeamError::InvalidRequest(ref x)) if x == "cannot remove the team lead"));
    let e = remove("u", None, "x");
    assert!(matches!(e, Err(TeamError::AgentNotFound(ref x)) if x == "x"));
    let e = remove("other-user", None, "w1");
    assert!(matches!(e, Err(TeamError::TeamNotFound(ref x)) if x == "t"));
    let e = TeamSessionService::remove_agent(None, "u", "t", None, "w1");
    assert!(matches!(e, Err(TeamError::TeamNotFound(ref x)) if x == "t"));
}

#[test]
fn a_removal_ends_the_runtime_then_the_membership_then_the_conversation() {
    let mut r = removal();
    assert_eq!(
        r.step(begun(1, BeginRemove::Start)).actions,
        [RemovalAction::StopEventLoop, RemovalAction::Kill]
    );
    assert_eq!(r.step(RemovalEvent::Killed).actions, [RemovalAction::ReloadTeam]);
    let step = r.step(RemovalEvent::Reloaded { agents: roster() });
    assert_eq!(step.actions, [RemovalAction::Persist]);
    let slots: Vec<String> = step.roster.unwrap().into_iter().map(|a| a.slot_id).collect();
    assert_eq!(slots, ["lead", "w2"]);
    assert_eq!(r.step(RemovalEvent::Persisted).actions, [RemovalAction::FindSession]);
    assert_eq!(
        r.step(RemovalEvent::SessionNow(Some(1))).actions,
        [RemovalAction::StopEventLoop, RemovalAction::Kill]
    );
    assert_eq!(r.step(RemovalEvent::Killed).actions, [RemovalAction::Unschedule]);
    assert_eq!(
        r.step(RemovalEvent::Unscheduled).actions,
        [RemovalAction::FinishRemove, RemovalAction::DeleteConversation]
    );
    assert_eq!(r.step(RemovalEvent::Deleted).actions, [RemovalAction::CheckSession]);
    assert_eq!(r.step(RemovalEvent::StillRunning(true)).actions, [RemovalAction::NotifyLead]);
    let end = r.step(RemovalEvent::Notified);
    assert_eq!(end.actions, [RemovalAction::RefreshStatus]);
    assert!(matches!(end.result, Some(Ok(()))));
}

#[test]
fn a_removal_without_a_session_is_announced() {
    let mut r = removal();
    assert_eq!(r.step(RemovalEvent::NoSession).actions, [RemovalAction::Kill]);
    r.step(RemovalEvent::Killed);
    r.step(RemovalEvent::Reloaded { agents: roster() });
    r.step(RemovalEvent::Persisted);
    assert_eq!(
        r.step(RemovalEvent::SessionNow(None)).actions,
        [RemovalAction::DeleteConversation]
    );
    let end = r.step(RemovalEvent::Deleted);
    assert_eq!(end.actions, [RemovalAction::AnnounceRemoved]);
    assert!(matches!(end.result, Some(Ok(()))));
}

#[test]
fn a_removal_joins_one_that_runs() {
    let join = |outcome: AttachOutcome| {
        let mut r = removal();
        assert_eq!(r.step(begun(1, BeginRemove::Join)).actions, [RemovalAction::Wait]);
        r.step(RemovalEvent::Joined(outcome)).result.unwrap()
    };
    assert!(join(AttachOutcome::Removed).is_ok());
    assert!(matches!(join(AttachOutcome::Ready), Err(TeamError::SessionNotFound(ref x)) if x == "t"));
    assert!(matches!(join(failure("x")), Err(TeamError::MemberRuntimeFailed { ref slot_id, .. })
        if slot_id == "w1"));
}

#[test]
fn a_roster_that_cannot_be_stored_keeps_the_member() {
    let store_fails = |answer: BeginRemove| {
        let mut r = removal();
        r.step(begun(1, answer));
        r.step(RemovalEvent::Killed);
        r.step(RemovalEvent::Reloaded { agents: roster() });
        r.step(RemovalEvent::PersistFailed(TeamError::Database("x".to_string())))
    };
    let step = store_fails(BeginRemove::Start);
    assert_eq!(step.actions, [RemovalAction::RestoreRuntime, RemovalAction::RefreshStatus]);
    assert!(matches!(step.result, Some(Err(TeamError::Database(_)))));
    assert!(store_fails(BeginRemove::Absent).actions.is_empty());
}

#[test]
fn a_removal_follows_a_session_that_was_replaced() {
    let mut r = stored_removal();
    assert_eq!(
        r.step(RemovalEvent::SessionNow(Some(2))).actions,
        [RemovalAction::BeginRemove]
    );
    assert_eq!(r.step(begun(2, BeginRemove::Join)).actions, [RemovalAction::Wait]);
    assert_eq!(
        r.step(RemovalEvent::Joined(AttachOutcome::Removed)).actions,
        [RemovalAction::StopEventLoop, RemovalAction::Kill]
    );
    r.step(RemovalEvent::Killed);
    assert_eq!(r.step(RemovalEvent::Unscheduled).actions, [RemovalAction::DeleteConversation]);
    r.step(RemovalEvent::Deleted);
    let end = r.step(RemovalEvent::StillRunning(false));
    assert_eq!(end.actions, [RemovalAction::AnnounceRemoved]);
}

#[test]
fn a_member_that_was_not_scheduled_is_removed_all_the_same() {
    let unscheduling = || {
        let mut r = stored_removal();
        r.step(RemovalEvent::SessionNow(Some(1)));
        r.step(RemovalEvent::Killed);
        r
    };
    let missing = TeamError::AgentNotFound("w1".to_string());
    let step = unscheduling().step(RemovalEvent::UnscheduleFailed(missing));
    assert_eq!(step.actions, [RemovalAction::FinishRemove, RemovalAction::DeleteConversation]);
    assert!(step.result.is_none());
    let other = TeamError::Database("disk".to_string());
    let step = unscheduling().step(RemovalEvent::UnscheduleFailed(other));
    assert!(matches!(step.result, Some(Err(TeamError::Database(ref x))) if x == "disk"));
    assert!(!step.actions.contains(&RemovalAction::DeleteConversation));
}

#[test]
fn dynamic_member_is_reserved_before_membership_event() {
    let team = new_team("t", "u", "T", "", roster(), None, None, None, 1);
    let mut a = TeamSessionService::add_agent(Some(&team), "u", "t").unwrap();
    let new = agent("new", TeammateRole::Teammate);
    let step = a.step(AdditionEvent::Provisioned { agent: new, project_bound: false });
    assert_eq!(step.actions, [AdditionAction::ReadMembers]);
    assert_eq!(
        a.step(AdditionEvent::Members { members: Vec::new() }).actions,
        [AdditionAction::FindSession]
    );
    assert_eq!(
        a.step(AdditionEvent::SessionFound).actions,
        [AdditionAction::ReserveAttach, AdditionAction::JoinSession]
    );
    let end = a.step(AdditionEvent::Joined);
    assert_eq!(end.actions, [AdditionAction::AnnouncePending, AdditionAction::SpawnAttach]);
    assert_eq!(end.result.unwrap().unwrap().slot_id, "new");
    assert!(TeamSessionService::add_agent(Some(&team), "x", "t").is_err());
}

#[test]
fn add_agent_materializes_into_active_engagement_only() {
    let mut a = Addition::new();
    let new = agent("new", TeammateRole::Teammate);
    let step = a.step(AdditionEvent::Provisioned { agent: new, project_bound: true });
    assert_eq!(step.actions, [AdditionAction::EnsureMembers]);
    assert_eq!(a.step(AdditionEvent::Materialized).actions, [AdditionAction::ReadMembers]);
    let made = EngagementMember {
        engagement_id: "e".to_string(),
        slot_id: "rt".to_string(),
        template_slot: "new".to_string(),
        role: "teammate".to_string(),
        conversation_id: "conv-rt".to_string(),
    };
    a.step(AdditionEvent::Members { members: vec![made] });
    let end = a.step(AdditionEvent::NoSession);
    assert_eq!(end.actions, [AdditionAction::AnnounceSpawned]);
    let running = end.result.unwrap().unwrap();
    assert_eq!((running.slot_id.as_str(), running.conversation_id.as_str()), ("rt", "conv-rt"));
    let mut a = Addition::new();
    let step = a.step(AdditionEvent::ProvisionFailed(TeamError::Database("x".to_string())));
    assert!(matches!(step.result, Some(Err(TeamError::Database(_)))));
}

#[test]
fn changed_servers_wait_for_a_runtime_that_settles() {
    let failed = MemberRuntimeSnapshot::Failed { public_reason: String::new() };
    assert_eq!(refresh_member_mcp_binding(&MemberRuntimeSnapshot::Ready), McpRefreshAction::Ask);
    assert_eq!(refresh_member_mcp_binding(&MemberRuntimeSnapshot::Attaching), McpRefreshAction::Defer);
    assert_eq!(refresh_member_mcp_binding(&MemberRuntimeSnapshot::Removing), McpRefreshAction::Defer);
    assert_eq!(refresh_member_mcp_binding(&failed), McpRefreshAction::Leave);
    assert_eq!(mcp_refresh_requested(McpRefreshDisposition::RestartNow), McpRefreshAction::Restart);
    assert_eq!(mcp_refresh_requested(McpRefreshDisposition::Unchanged), McpRefreshAction::Leave);
}

#[test]
fn the_session_shows_the_state_of_its_lead() {
    let mut svc = TeamSessionService::new();
    svc.publish_session(&session(1));
    let shows = |expected: &SessionInfo, lead: MemberRuntimeSnapshot| {
        let failed = MemberRuntimeSnapshot::Failed { public_reason: "w".to_string() };
        let states = [MemberRuntimeSnapshot::Absent, lead, failed];
        svc.refresh_member_runtime_status(expected, &roster(), &states, 3)
    };
    let status = |lead: MemberRuntimeSnapshot| shows(&session(1), lead);
    // Whatever the teammates do, a lead that is ready makes the team ready.
    assert_eq!(status(MemberRuntimeSnapshot::Ready), Some(ready_status(3)));
    assert!(shows(&session(2), MemberRuntimeSnapshot::Ready).is_none(), "another session runs");
    let failed = status(MemberRuntimeSnapshot::Failed { public_reason: String::new() }).unwrap();
    assert_eq!((failed.status, failed.text), (TeamSessionStatus::Failed, StatusText::OfFailure));
    let absent = status(MemberRuntimeSnapshot::Absent).unwrap();
    assert_eq!(absent.status, TeamSessionStatus::Starting);
    assert!(status(MemberRuntimeSnapshot::SessionStopped).is_none());
    assert!(svc.refresh_member_runtime_status(&session(1), &[], &[], 0).is_none(), "nobody leads");
    // The lead counts that works in the session, not the one of the template.
    let live = [agent("rt-lead", TeammateRole::Lead)];
    let ready = svc.refresh_member_runtime_status(
        &session(1),
        &live,
        &[MemberRuntimeSnapshot::Ready],
        2,
    );
    assert_eq!(ready, Some(ready_status(2)));
}

#[test]
fn only_unfinished_runs_are_active() {
    assert!(is_active_run(TeamRunStatus::Accepted));
    assert!(is_active_run(TeamRunStatus::Cancelling));
    assert!(!is_active_run(TeamRunStatus::Completed));
}
