//! Bringing the members of a running session in line: what is broken is
//! started again, what sleeps is left asleep.
use crate::error::TeamError;
use crate::roster::{agent_has, MemberKey, TeamAgent};
use crate::runtime::{
    AttachOutcome, MemberRuntimeSnapshot, ReserveAttach, SessionStatus, StatusText,
    TeamSessionPhase, TeamSessionStatus,
};
use crate::scheduler::TeammateRole;
use crate::search::{any, first_index, lemma_is_first, lemma_no_first};
use crate::session_start::{failed, failed_status, ready, ready_status};
use crate::sessions::SessionInfo;
use crate::text::{same_text, text_listed, texts};
use vstd::prelude::*;

verus! {

/// What the registry of runtimes is asked for a member.
#[derive(Debug, Clone, Copy, PartialEq, Eq, Structural)]
pub enum ReconcileRequest {
    /// Nothing: the member sleeps, or all is well.
    Nothing,
    /// A runtime that counts as ready has no process: repair it.
    Repair,
    /// Start the runtime, also where it failed before.
    Attach,
}

/// A teammate that was never started sleeps on. A ready member without a
/// process is repaired, with one it is left alone. Everything else is started.
pub open spec fn reconcile_rule(
    role: TeammateRole,
    snapshot: MemberRuntimeSnapshot,
    has_task: bool,
) -> ReconcileRequest {
    match snapshot {
        MemberRuntimeSnapshot::Absent if role != TeammateRole::Lead => ReconcileRequest::Nothing,
        MemberRuntimeSnapshot::Ready => if has_task {
            ReconcileRequest::Nothing
        } else {
            ReconcileRequest::Repair
        },
        _ => ReconcileRequest::Attach,
    }
}

fn reconcile_request(
    role: TeammateRole,
    snapshot: &MemberRuntimeSnapshot,
    has_task: bool,
) -> (r: ReconcileRequest)
    ensures
        r == reconcile_rule(role, *snapshot, has_task),
{
    match snapshot {
        MemberRuntimeSnapshot::Absent => match role {
            TeammateRole::Lead => ReconcileRequest::Attach,
            TeammateRole::Teammate => ReconcileRequest::Nothing,
        },
        MemberRuntimeSnapshot::Ready => if has_task {
            ReconcileRequest::Nothing
        } else {
            ReconcileRequest::Repair
        },
        _ => ReconcileRequest::Attach,
    }
}

/// A member whose runtime is awaited, and whether it is the caller's to start.
#[derive(Debug, Clone, Copy, PartialEq, Eq, Structural)]
pub struct ReconcileWork {
    pub position: usize,
    pub owner: bool,
}

/// What is awaited of the member whose turn it is.
#[derive(Debug, Clone, Copy, PartialEq, Eq, Structural)]
pub enum ReserveStage {
    Asking,
    Reserving,
    Done,
}

#[derive(Debug)]
pub enum ReserveEvent {
    /// Where the runtime stands, and whether it has a process.
    Snapshot { snapshot: MemberRuntimeSnapshot, has_task: bool },
    Reserved(ReserveAttach),
}

#[derive(Debug, Clone, Copy, PartialEq, Eq, Structural)]
pub enum ReserveAction {
    /// Look at the member at that position.
    Ask(usize),
    /// Put the member at that position back into the scheduler of the session,
    /// then look at it.
    Schedule(usize),
    /// Ask the registry for the member at that position.
    Request(usize, ReconcileRequest),
    /// All members were seen, or the session stopped.
    Finish,
    /// The event was not awaited.
    Ignore,
}

/// What follows from an event. A member that is the caller's to start is
/// announced as pending first.
#[derive(Debug)]
pub struct ReserveStep {
    pub announce_pending: Option<usize>,
    pub action: ReserveAction,
    pub error: Option<TeamError>,
}

/// The members are gone through in the order of the roster.
#[derive(Debug)]
pub struct ReserveRun {
    pub roles: Vec<TeammateRole>,
    /// Which members the scheduler of the session lacks.
    pub unscheduled: Vec<bool>,
    pub position: usize,
    pub stage: ReserveStage,
    pub work: Vec<ReconcileWork>,
}

/// The run has a member whose turn it is, until it is done, and its work is
/// about members of the roster.
pub open spec fn reserve_wf(s: ReserveRun) -> bool {
    &&& s.unscheduled@.len() == s.roles@.len()
    &&& s.stage is Done || s.position < s.roles@.len()
    &&& forall|i: int| 0 <= i < s.work@.len() ==> (#[trigger] s.work@[i]).position < s.roles@.len()
}

/// How the turn of a member begins: one that the scheduler lacks is put back
/// into it first.
pub open spec fn turn_of(unscheduled: Seq<bool>, position: int) -> ReserveAction {
    if unscheduled[position] {
        ReserveAction::Schedule(position as usize)
    } else {
        ReserveAction::Ask(position as usize)
    }
}

/// The position, stage and action after the member whose turn it is.
pub open spec fn after_member(s: ReserveRun) -> (int, ReserveStage, ReserveAction) {
    if s.position + 1 < s.roles@.len() {
        (
            s.position + 1,
            ReserveStage::Asking,
            turn_of(s.unscheduled@, s.position + 1),
        )
    } else {
        (s.position as int, ReserveStage::Done, ReserveAction::Finish)
    }
}

pub struct ReserveNext {
    pub position: int,
    pub stage: ReserveStage,
    pub action: ReserveAction,
    pub announce: bool,
    pub work: Seq<ReconcileWork>,
    pub stopped: bool,
}

pub open spec fn reserve_next(s: ReserveRun, event: ReserveEvent) -> ReserveNext {
    let (position, stage, action) = after_member(s);
    let work = s.work@;
    match (s.stage, event) {
        (ReserveStage::Asking, ReserveEvent::Snapshot { snapshot, has_task }) => {
            let request = reconcile_rule(s.roles@[s.position as int], snapshot, has_task);
            if request == ReconcileRequest::Nothing {
                ReserveNext { position, stage, action, announce: false, work, stopped: false }
            } else {
                ReserveNext {
                    position: s.position as int,
                    stage: ReserveStage::Reserving,
                    action: ReserveAction::Request(s.position, request),
                    announce: false,
                    work,
                    stopped: false,
                }
            }
        },
        (ReserveStage::Reserving, ReserveEvent::Reserved(reservation)) => match reservation {
            ReserveAttach::Start => ReserveNext {
                position,
                stage,
                action,
                announce: true,
                work: work.push(ReconcileWork { position: s.position, owner: true }),
                stopped: false,
            },
            ReserveAttach::Join | ReserveAttach::Removing => ReserveNext {
                position,
                stage,
                action,
                announce: false,
                work: work.push(ReconcileWork { position: s.position, owner: false }),
                stopped: false,
            },
            ReserveAttach::AlreadyReady => ReserveNext {
                position,
                stage,
                action,
                announce: false,
                work,
                stopped: false,
            },
            ReserveAttach::SessionStopped => ReserveNext {
                position: s.position as int,
                stage: ReserveStage::Done,
                action: ReserveAction::Finish,
                announce: false,
                work,
                stopped: true,
            },
        },
        _ => ReserveNext {
            position: s.position as int,
            stage: s.stage,
            action: ReserveAction::Ignore,
            announce: false,
            work,
            stopped: false,
        },
    }
}

pub open spec fn roles_of(agents: Seq<TeamAgent>) -> Seq<TeammateRole> {
    agents.map_values(|a: TeamAgent| a.role)
}

/// Of each agent, whether its slot is missing among the scheduled ones.
pub open spec fn missing_among(agents: Seq<TeamAgent>, scheduled: Seq<Seq<char>>) -> Seq<bool> {
    agents.map_values(|a: TeamAgent| !scheduled.contains(a.slot_id@))
}

impl ReserveRun {
    /// Starts with the first member of the roster; a roster without members is
    /// done at once. `scheduled` are the slots that the scheduler of the session
    /// has.
    pub fn new(agents: &[TeamAgent], scheduled: &[String]) -> (r: (ReserveRun, ReserveAction))
        ensures
            reserve_wf(r.0),
            r.0.roles@ == roles_of(agents@),
            r.0.unscheduled@ == missing_among(agents@, texts(scheduled@)),
            r.0.position == 0,
            r.0.work@.len() == 0,
            r.0.stage == if agents@.len() > 0 {
                ReserveStage::Asking
            } else {
                ReserveStage::Done
            },
            r.1 == if agents@.len() > 0 {
                turn_of(missing_among(agents@, texts(scheduled@)), 0)
            } else {
                ReserveAction::Finish
            },
    {
        let mut roles: Vec<TeammateRole> = Vec::new();
        let mut unscheduled: Vec<bool> = Vec::new();
        let mut i: usize = 0;
        while i < agents.len()
            invariant
                i <= agents@.len(),
                roles@.len() == i,
                unscheduled@.len() == i,
                forall|k: int| 0 <= k < i ==> #[trigger] roles@[k] == agents@[k].role,
                forall|k: int|
                    0 <= k < i ==> #[trigger] unscheduled@[k] == !texts(scheduled@).contains(
                        agents@[k].slot_id@,
                    ),
            decreases agents@.len() - i,
        {
            roles.push(agents[i].role);
            unscheduled.push(!text_listed(scheduled, agents[i].slot_id.as_str()));
            i = i + 1;
        }
        assert(roles@ =~= roles_of(agents@));
        assert(unscheduled@ =~= missing_among(agents@, texts(scheduled@)));
        let stage = if agents.len() > 0 {
            ReserveStage::Asking
        } else {
            ReserveStage::Done
        };
        let run = ReserveRun { roles, unscheduled, position: 0, stage, work: Vec::new() };
        let action = if agents.len() > 0 {
            run.turn(0)
        } else {
            ReserveAction::Finish
        };
        (run, action)
    }

    fn turn(&self, position: usize) -> (r: ReserveAction)
        requires
            position < self.unscheduled@.len(),
        ensures
            r == turn_of(self.unscheduled@, position as int),
    {
        if self.unscheduled[position] {
            ReserveAction::Schedule(position)
        } else {
            ReserveAction::Ask(position)
        }
    }

    fn advance(&mut self) -> (r: ReserveAction)
        requires
            old(self).position < old(self).roles@.len(),
            reserve_wf(*old(self)),
        ensures
            reserve_wf(*final(self)),
            final(self).roles == old(self).roles,
            final(self).unscheduled == old(self).unscheduled,
            final(self).work == old(self).work,
            (final(self).position as int, final(self).stage, r) == after_member(*old(self)),
    {
        if self.roles.len() - self.position > 1 {
            self.position = self.position + 1;
            self.stage = ReserveStage::Asking;
            self.turn(self.position)
        } else {
            self.stage = ReserveStage::Done;
            ReserveAction::Finish
        }
    }

    /// Takes in what the registry answered and says what to ask next.
    pub fn step(&mut self, event: ReserveEvent) -> (r: ReserveStep)
        requires
            reserve_wf(*old(self)),
        ensures
            ({
                let n = reserve_next(*old(self), event);
                &&& reserve_wf(*final(self))
                &&& final(self).roles == old(self).roles
                &&& final(self).unscheduled == old(self).unscheduled
                &&& final(self).position == n.position
                &&& final(self).stage == n.stage
                &&& final(self).work@ == n.work
                &&& r.action == n.action
                &&& r.announce_pending == if n.announce {
                    Some(old(self).position)
                } else {
                    None
                }
                &&& match r.error {
                    Some(e) => n.stopped && (e matches TeamError::InvalidRequest(x) && x@
                        == "team session stopped during reconciliation reservation"@),
                    None => !n.stopped,
                }
            }),
    {
        match (self.stage, event) {
            (ReserveStage::Asking, ReserveEvent::Snapshot { snapshot, has_task }) => {
                let request = reconcile_request(self.roles[self.position], &snapshot, has_task);
                let action = if request == ReconcileRequest::Nothing {
                    self.advance()
                } else {
                    self.stage = ReserveStage::Reserving;
                    ReserveAction::Request(self.position, request)
                };
                ReserveStep { announce_pending: None, action, error: None }
            },
            (ReserveStage::Reserving, ReserveEvent::Reserved(reservation)) => {
                let at: usize = self.position;
                match reservation {
                    ReserveAttach::Start => {
                        self.work.push(ReconcileWork { position: at, owner: true });
                        let action = self.advance();
                        ReserveStep { announce_pending: Some(at), action, error: None }
                    },
                    ReserveAttach::Join | ReserveAttach::Removing => {
                        self.work.push(ReconcileWork { position: at, owner: false });
                        let action = self.advance();
                        ReserveStep { announce_pending: None, action, error: None }
                    },
                    ReserveAttach::AlreadyReady => {
                        let action = self.advance();
                        ReserveStep { announce_pending: None, action, error: None }
                    },
                    ReserveAttach::SessionStopped => {
                        self.stage = ReserveStage::Done;
                        ReserveStep {
                            announce_pending: None,
                            action: ReserveAction::Finish,
                            error: Some(
                                TeamError::InvalidRequest(
                                    "team session stopped during reconciliation reservation".to_owned(),
                                ),
                            ),
                        }
                    },
                }
            },
            _ => ReserveStep {
                announce_pending: None,
                action: ReserveAction::Ignore,
                error: None,
            },
        }
    }
}

/// A member whose turn comes without more ado is scheduled already: one that
/// the scheduler lacks is put back before its runtime is looked at.
pub proof fn law_members_are_scheduled_before_they_are_asked(s: ReserveRun, event: ReserveEvent)
    requires
        reserve_wf(s),
    ensures
        reserve_next(s, event).action matches ReserveAction::Ask(i) ==> i < s.unscheduled@.len()
            && !s.unscheduled@[i as int],
        reserve_next(s, event).action matches ReserveAction::Schedule(i) ==> i
            < s.unscheduled@.len() && s.unscheduled@[i as int],
{
    assert(s.roles@.len() == s.roles.len());
}

/// A teammate that was never started is not asked for: it sleeps on through
/// any number of reconciliations.
pub proof fn law_dormant_teammate_sleeps_on(s: ReserveRun, has_task: bool)
    requires
        reserve_wf(s),
        s.stage is Asking,
        s.roles@[s.position as int] == TeammateRole::Teammate,
    ensures
        ({
            let n = reserve_next(
                s,
                ReserveEvent::Snapshot { snapshot: MemberRuntimeSnapshot::Absent, has_task },
            );
            n.work == s.work@ && !(n.action is Request) && !n.announce
        }),
{
}

/// Whether the session shows that it is starting while the work is done: only
/// where the lead is part of it.
pub fn announces_starting(agents: &[TeamAgent], work: &[ReconcileWork]) -> (r: bool)
    requires
        forall|i: int| 0 <= i < work@.len() ==> (#[trigger] work@[i]).position < agents@.len(),
    ensures
        r == exists|i: int|
            0 <= i < work@.len() && agents@[(#[trigger] work@[i]).position as int].role
                == TeammateRole::Lead,
{
    let mut i: usize = 0;
    while i < work.len()
        invariant
            i <= work@.len(),
            forall|i: int| 0 <= i < work@.len() ==> (#[trigger] work@[i]).position < agents@.len(),
            forall|k: int|
                0 <= k < i ==> agents@[(#[trigger] work@[k]).position as int].role
                    != TeammateRole::Lead,
        decreases work@.len() - i,
    {
        assert(work@[i as int].position < agents@.len());
        if agents[work[i].position].role == TeammateRole::Lead {
            return true;
        }
        i = i + 1;
    }
    false
}

/// Whether the runtimes can be started: not by a service that is going away,
/// where one of them is the caller's to start.
pub fn can_attach(work: &[ReconcileWork], service_runs: bool) -> (r: Result<(), TeamError>)
    ensures
        match r {
            Ok(_) => service_runs || !any(work@, is_own_work()),
            Err(e) => !service_runs && any(work@, is_own_work()) && (
            e matches TeamError::InvalidRequest(x) && x@ == "team service is shutting down"@),
        },
{
    let ghost p = is_own_work();
    let mut i: usize = 0;
    while i < work.len()
        invariant
            i <= work@.len(),
            p == is_own_work(),
            service_runs || forall|k: int| 0 <= k < i ==> !p(#[trigger] work@[k]),
        decreases work@.len() - i,
    {
        if work[i].owner && !service_runs {
            assert(p(work@[i as int]));
            return Err(TeamError::InvalidRequest("team service is shutting down".to_owned()));
        }
        i = i + 1;
    }
    Ok(())
}

/// The runtime is the caller's to start.
pub open spec fn is_own_work() -> spec_fn(ReconcileWork) -> bool {
    |w: ReconcileWork| w.owner
}

/// How the start of a member's runtime ended.
#[derive(Debug)]
pub struct MemberOutcome {
    pub agent: TeamAgent,
    pub outcome: AttachOutcome,
}

/// The outcome ends the reconciliation: of a member that is still there, the
/// session stopped, or the runtime of the lead failed.
pub open spec fn decisive(live: Seq<TeamAgent>) -> spec_fn(MemberOutcome) -> bool {
    |o: MemberOutcome|
        any(live, agent_has(MemberKey::Slot, o.agent.slot_id@)) && match o.outcome {
            AttachOutcome::SessionStopped => true,
            AttachOutcome::Failed { .. } => o.agent.role == TeammateRole::Lead,
            _ => false,
        }
}

/// The end of a reconciliation: the status to announce, and the result.
#[derive(Debug)]
pub struct ReconcileEnd {
    pub announce: Option<SessionStatus>,
    pub result: Result<(), TeamError>,
}

/// The session is still the one that is published.
pub open spec fn still_published(current: Option<SessionInfo>, expected: SessionInfo) -> bool {
    current matches Some(s) && s.generation == expected.generation
}

pub open spec fn reconcile_outcome(
    team: Seq<char>,
    team_exists: bool,
    current: Option<SessionInfo>,
    expected: SessionInfo,
    live: Seq<TeamAgent>,
    outcomes: Seq<MemberOutcome>,
    r: ReconcileEnd,
) -> bool {
    if !team_exists {
        r.announce is None && (r.result matches Err(TeamError::TeamNotFound(x)) && x@ == team)
    } else if !still_published(current, expected) {
        r.announce is None && (r.result matches Err(TeamError::SessionNotFound(x)) && x@ == team)
    } else {
        match first_index(outcomes, decisive(live)) {
            None => r.announce == Some(ready(live.len())) && r.result is Ok,
            Some(i) => match outcomes[i].outcome {
                AttachOutcome::Failed { public_reason: reason } => {
                    &&& r.announce == Some(
                        failed(TeamSessionPhase::AttachingAgents, StatusText::OfFailure),
                    )
                    &&& r.result matches Err(
                        TeamError::MemberRuntimeFailed {
                            team_id,
                            slot_id,
                            conversation_id,
                            public_reason,
                        },
                    ) && team_id@ == team && slot_id@ == outcomes[i].agent.slot_id@
                        && conversation_id@ == outcomes[i].agent.conversation_id@
                        && public_reason@ == reason@
                },
                _ => r.announce is None && (r.result matches Err(TeamError::InvalidRequest(x))
                    && x@ == "team session stopped during reconciliation"@),
            },
        }
    }
}

fn has_slot(live: &[TeamAgent], slot_id: &str) -> (r: bool)
    ensures
        r == any(live@, agent_has(MemberKey::Slot, slot_id@)),
{
    let ghost p = agent_has(MemberKey::Slot, slot_id@);
    let mut i: usize = 0;
    while i < live.len()
        invariant
            i <= live@.len(),
            p == agent_has(MemberKey::Slot, slot_id@),
            forall|k: int| 0 <= k < i ==> !p(#[trigger] live@[k]),
        decreases live@.len() - i,
    {
        if same_text(live[i].slot_id.as_str(), slot_id) {
            assert(p(live@[i as int]));
            return true;
        }
        i = i + 1;
    }
    false
}

/// Ends a reconciliation, once all runtimes have answered. A member that was
/// removed meanwhile is passed over, and a teammate that failed does not hold
/// up the team.
pub fn complete_member_runtime_reconciliation(
    team_id: &str,
    team_exists: bool,
    current: &Option<SessionInfo>,
    expected: &SessionInfo,
    live_roster: &[TeamAgent],
    outcomes: &[MemberOutcome],
) -> (r: ReconcileEnd)
    ensures
        reconcile_outcome(
            team_id@,
            team_exists,
            *current,
            *expected,
            live_roster@,
            outcomes@,
            r,
        ),
{
    if !team_exists {
        return ReconcileEnd {
            announce: None,
            result: Err(TeamError::TeamNotFound(team_id.to_owned())),
        };
    }
    let published = match current {
        Some(s) => s.generation == expected.generation,
        None => false,
    };
    if !published {
        return ReconcileEnd {
            announce: None,
            result: Err(TeamError::SessionNotFound(team_id.to_owned())),
        };
    }
    let ghost p = decisive(live_roster@);
    let mut i: usize = 0;
    while i < outcomes.len()
        invariant
            i <= outcomes@.len(),
            team_exists,
            still_published(*current, *expected),
            p == decisive(live_roster@),
            forall|k: int| 0 <= k < i ==> !p(#[trigger] outcomes@[k]),
        decreases outcomes@.len() - i,
    {
        let item = &outcomes[i];
        if has_slot(live_roster, item.agent.slot_id.as_str()) {
            match &item.outcome {
                AttachOutcome::Failed { public_reason } => {
                    if item.agent.role == TeammateRole::Lead {
                        proof {
                            lemma_is_first(outcomes@, p, i as int);
                        }
                        return ReconcileEnd {
                            announce: Some(
                                failed_status(
                                    TeamSessionPhase::AttachingAgents,
                                    StatusText::OfFailure,
                                ),
                            ),
                            result: Err(
                                TeamError::MemberRuntimeFailed {
                                    team_id: team_id.to_owned(),
                                    slot_id: item.agent.slot_id.clone(),
                                    conversation_id: item.agent.conversation_id.clone(),
                                    public_reason: public_reason.clone(),
                                },
                            ),
                        };
                    }
                },
                AttachOutcome::SessionStopped => {
                    proof {
                        lemma_is_first(outcomes@, p, i as int);
                    }
                    return ReconcileEnd {
                        announce: None,
                        result: Err(
                            TeamError::InvalidRequest(
                                "team session stopped during reconciliation".to_owned(),
                            ),
                        ),
                    };
                },
                _ => {},
            }
        }
        i = i + 1;
    }
    proof {
        lemma_no_first(outcomes@, p);
    }
    ReconcileEnd { announce: Some(ready_status(live_roster.len())), result: Ok(()) }
}

/// Teammates whose runtimes failed do not fail the team: where the session
/// goes on and no lead failed, the reconciliation succeeds.
pub proof fn law_teammate_failure_stays_inline(
    team: Seq<char>,
    current: Option<SessionInfo>,
    expected: SessionInfo,
    live: Seq<TeamAgent>,
    outcomes: Seq<MemberOutcome>,
    r: ReconcileEnd,
)
    requires
        reconcile_outcome(team, true, current, expected, live, outcomes, r),
        still_published(current, expected),
        forall|i: int|
            0 <= i < outcomes.len() ==> !((#[trigger] outcomes[i]).outcome is SessionStopped) && (
            outcomes[i].outcome is Failed ==> outcomes[i].agent.role != TeammateRole::Lead),
    ensures
        r.result is Ok,
        r.announce == Some(ready(live.len())),
{
    lemma_no_first(outcomes, decisive(live));
}

/// What happened to a member that was removed meanwhile decides nothing.
pub proof fn law_removed_member_decides_nothing(live: Seq<TeamAgent>, o: MemberOutcome)
    requires
        !any(live, agent_has(MemberKey::Slot, o.agent.slot_id@)),
    ensures
        !decisive(live)(o),
{
}

/// A member that is ready and works is left alone, and so is a teammate that never was
/// started; one that is ready without work to show is repaired, and any other one is
/// started.
pub proof fn law_only_what_is_broken_is_started(
    role: TeammateRole,
    snapshot: MemberRuntimeSnapshot,
    has_task: bool,
)
    ensures
        reconcile_rule(role, snapshot, has_task) == ReconcileRequest::Nothing <==> (snapshot
            is Ready && has_task) || (snapshot is Absent && role == TeammateRole::Teammate),
        reconcile_rule(role, snapshot, has_task) == ReconcileRequest::Repair <==> snapshot is Ready
            && !has_task,
{
}

/// Members are looked at one after the other, each exactly once. Whoever was given a
/// runtime to start has it as own work and is shown as pending; whoever was told to
/// wait waits; whoever has nothing to do adds nothing. Only a session that stopped ends
/// the round early.
pub proof fn law_every_member_gets_its_turn(s: ReserveRun, event: ReserveEvent)
    requires
        reserve_wf(s),
    ensures
        ({
            let n = reserve_next(s, event);
            let turn_over = (s.stage is Asking && (event matches ReserveEvent::Snapshot {
                snapshot,
                has_task,
            } && ((snapshot is Ready && has_task) || (snapshot is Absent
                && s.roles@[s.position as int] == TeammateRole::Teammate)))) || (s.stage
                is Reserving && (event matches ReserveEvent::Reserved(r) && r
                != ReserveAttach::SessionStopped));
            let given = s.stage is Reserving && (event matches ReserveEvent::Reserved(
                ReserveAttach::Start,
            ));
            let waits = s.stage is Reserving && (event matches ReserveEvent::Reserved(r) && (r
                == ReserveAttach::Join || r == ReserveAttach::Removing));
            &&& turn_over && s.position + 1 < s.roles@.len() ==> n.position == s.position + 1
                && n.stage is Asking && (s.unscheduled@[s.position + 1] ==> n.action
                == ReserveAction::Schedule((s.position + 1) as usize)) && (!s.unscheduled@[
            s.position + 1] ==> n.action == ReserveAction::Ask((s.position + 1) as usize))
            &&& turn_over && s.position + 1 == s.roles@.len() ==> n.stage is Done && n.action
                is Finish
            &&& !turn_over ==> n.position == s.position
            &&& given ==> n.work == s.work@.push(
                (ReconcileWork { position: s.position, owner: true }),
            )
            &&& waits ==> n.work == s.work@.push(
                (ReconcileWork { position: s.position, owner: false }),
            )
            &&& !given && !waits ==> n.work == s.work@
            &&& n.announce <==> given
            &&& n.stopped <==> s.stage is Reserving && (event matches ReserveEvent::Reserved(
                ReserveAttach::SessionStopped,
            ))
            &&& n.stopped ==> n.stage is Done && n.action is Finish
            &&& s.stage is Asking && event is Snapshot && !turn_over ==> n.stage is Reserving && (
            n.action matches ReserveAction::Request(i, request) && i == s.position && request
                != ReconcileRequest::Nothing && (request == ReconcileRequest::Repair <==> (
            event matches ReserveEvent::Snapshot { snapshot, has_task } && snapshot is Ready
                && !has_task)))
        }),
{
    assert(s.roles@.len() == s.roles.len());
}

/// What happened to the member decides how the team is: the session stopped, or the
/// lead failed, and it still is a member.
pub open spec fn decides(live: Seq<TeamAgent>, o: MemberOutcome) -> bool {
    &&& exists|i: int| 0 <= i < live.len() && (#[trigger] live[i]).slot_id@ == o.agent.slot_id@
    &&& o.outcome is SessionStopped || (o.outcome is Failed && o.agent.role == TeammateRole::Lead)
}

/// A reconciliation succeeds exactly where the team exists, the session is still the
/// one that was looked at, and nothing happened that decides otherwise; the team is
/// then shown as ready, with all of its members. The first thing that decides
/// otherwise is what is answered.
pub proof fn law_reconciliation_answers_what_happened(
    team: Seq<char>,
    team_exists: bool,
    current: Option<SessionInfo>,
    expected: SessionInfo,
    live: Seq<TeamAgent>,
    outcomes: Seq<MemberOutcome>,
    k: int,
    r: ReconcileEnd,
)
    requires
        reconcile_outcome(team, team_exists, current, expected, live, outcomes, r),
    ensures
        ({
            let same = current is Some && current->0.generation == expected.generation;
            let first = 0 <= k < outcomes.len() && decides(live, outcomes[k]) && forall|j: int|
                0 <= j < k ==> !decides(live, #[trigger] outcomes[j]);
            &&& r.result is Ok <==> team_exists && same && forall|j: int|
                0 <= j < outcomes.len() ==> !decides(live, #[trigger] outcomes[j])
            &&& r.result is Ok ==> (r.announce matches Some(x) && x.status
                == TeamSessionStatus::Ready && x.phase is None && x.text == StatusText::Nothing
                && x.server_count == Some(live.len() as usize))
            &&& !team_exists ==> r.announce is None && (
            r.result matches Err(TeamError::TeamNotFound(x)) && x@ == team)
            &&& team_exists && !same ==> r.announce is None && (
            r.result matches Err(TeamError::SessionNotFound(x)) && x@ == team)
            &&& team_exists && same && first && outcomes[k].outcome is SessionStopped ==> r.announce
                is None && (r.result matches Err(TeamError::InvalidRequest(x)) && x@
                == "team session stopped during reconciliation"@)
            &&& team_exists && same && first && outcomes[k].outcome is Failed ==> (
            r.announce matches Some(x) && x.status == TeamSessionStatus::Failed && x.phase == Some(
                TeamSessionPhase::AttachingAgents,
            ) && x.text == StatusText::OfFailure && x.server_count is None) && (r.result matches Err(
                TeamError::MemberRuntimeFailed { team_id, slot_id, conversation_id, public_reason },
            ) && team_id@ == team && slot_id@ == outcomes[k].agent.slot_id@ && conversation_id@
                == outcomes[k].agent.conversation_id@ && public_reason@
                == outcomes[k].outcome->Failed_public_reason@)
        }),
{
    let p = decisive(live);
    assert forall|o: MemberOutcome| #[trigger] p(o) <==> decides(live, o) by {
        let q = agent_has(MemberKey::Slot, o.agent.slot_id@);
        if any(live, q) {
            let i = choose|i: int| 0 <= i < live.len() && q(#[trigger] live[i]);
            assert(live[i].slot_id@ == o.agent.slot_id@);
        }
        if decides(live, o) {
            let i = choose|i: int|
                0 <= i < live.len() && (#[trigger] live[i]).slot_id@ == o.agent.slot_id@;
            assert(q(live[i]));
        }
    }
    crate::search::lemma_first_index(outcomes, p);
    if let Some(i) = first_index(outcomes, p) {
        assert(decides(live, outcomes[i]));
    } else {
        assert forall|j: int| 0 <= j < outcomes.len() implies !decides(
            live,
            #[trigger] outcomes[j],
        ) by {
            assert(!p(outcomes[j]));
        }
    }
    if 0 <= k < outcomes.len() && decides(live, outcomes[k]) && forall|j: int|
        0 <= j < k ==> !decides(live, #[trigger] outcomes[j]) {
        assert forall|j: int| 0 <= j < k implies !p(#[trigger] outcomes[j]) by {
            assert(!decides(live, outcomes[j]));
        }
        lemma_is_first(outcomes, p, k);
    }
}

/// Somebody has to start a runtime exactly where one of the pieces of work is their
/// own.
pub proof fn law_own_work_needs_the_service(work: Seq<ReconcileWork>)
    ensures
        any(work, is_own_work()) <==> exists|i: int|
            0 <= i < work.len() && (#[trigger] work[i]).owner,
{
    let p = is_own_work();
    if any(work, p) {
        let i = choose|i: int| 0 <= i < work.len() && p(#[trigger] work[i]);
        assert(work[i].owner);
    }
    if exists|i: int| 0 <= i < work.len() && (#[trigger] work[i]).owner {
        let i = choose|i: int| 0 <= i < work.len() && (#[trigger] work[i]).owner;
        assert(p(work[i]));
    }
}

/// A round looks at the agents in their order, each with its role, and knows of each
/// whether the scheduler lacks it.
pub proof fn law_round_knows_its_members(
    agents: Seq<TeamAgent>,
    scheduled: Seq<Seq<char>>,
    i: int,
)
    requires
        0 <= i < agents.len(),
    ensures
        roles_of(agents).len() == agents.len(),
        missing_among(agents, scheduled).len() == agents.len(),
        roles_of(agents)[i] == agents[i].role,
        missing_among(agents, scheduled)[i] <==> !scheduled.contains(agents[i].slot_id@),
{
}

} // verus!
