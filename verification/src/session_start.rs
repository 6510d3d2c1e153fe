//! Starting the session of a team: the lead first, teammates when they are
//! needed.
use crate::error::TeamError;
use crate::roster::{lead_position, leads, TeamAgent};
use crate::runtime::{
    AttachOutcome, ReserveAttach, SessionStatus, StatusText, TeamAgentRuntimeStatus,
    TeamSessionPhase, TeamSessionStatus,
};
use crate::scheduler::TeammateRole;
use crate::search::{first_index, lemma_few, lemma_first_index};
use vstd::prelude::*;

verus! {

/// How far the start has come: what is awaited.
#[derive(Debug, Clone, Copy, PartialEq, Eq, Structural)]
pub enum StartStage {
    /// The team is being read.
    Loading,
    /// The models of its roster are being brought in line.
    Repairing,
    /// A session that runs already is being looked for.
    Looking,
    /// The session is being set up.
    Starting,
    /// The runtime of the lead is being asked for.
    Reserving,
    /// The runtime of the lead is starting.
    Attaching,
    /// Messages that waited are being picked up.
    Draining,
    Done,
}

/// What happened.
#[derive(Debug)]
pub enum StartEvent {
    TeamMissing,
    TeamReadFailed(TeamError),
    /// The team was read, but makes no sense.
    TeamUnreadable(TeamError),
    TeamLoaded { project_bound: bool },
    ModelsRepaired,
    RepairFailed(TeamError),
    /// A session runs already.
    SessionRunning,
    NoSession,
    StartFailed(TeamError),
    /// The session is set up, with these members.
    SessionStarted { roster: Vec<TeamAgent> },
    /// The session is set up, but the service is going away.
    ServiceGone,
    Reserved(ReserveAttach),
    Attached(AttachOutcome),
    /// Done, whether or not it succeeded.
    Drained,
}

/// What is to be done next, in this order.
#[derive(Debug, Clone, Copy, PartialEq, Eq, Structural)]
pub enum StartAction {
    /// Announce a status of the session to the owner of the team.
    Announce(SessionStatus),
    /// Announce a status of the session to the user that asked, if one did.
    AnnounceToRequester(SessionStatus),
    /// Announce a status of the member at that position of the roster.
    AnnounceMember(usize, TeamAgentRuntimeStatus),
    RepairModels,
    LookForSession,
    /// Bring the members of the running session in line instead.
    ReconcileRunning,
    /// Make the members of the engagement; a failure is passed over.
    EnsureMembers,
    StartSession,
    PublishSession,
    StopSession,
    UnpublishSession,
    /// Ask for the runtime of the member at that position.
    ReserveAttach(usize),
    /// Start the runtime of the lead.
    Attach,
    /// Wait for somebody else to start it.
    Wait,
    DrainRecovery,
}

/// The start of a session, up to what is awaited.
#[derive(Debug)]
pub struct SessionStart {
    pub team_id: String,
    pub stage: StartStage,
    pub project_bound: bool,
    pub roster: Vec<TeamAgent>,
    pub lead: usize,
}

/// What follows from an event; `result` where the request has ended here.
#[derive(Debug)]
pub struct StartStep {
    pub actions: Vec<StartAction>,
    pub result: Option<Result<(), TeamError>>,
}

pub open spec fn starting(phase: TeamSessionPhase) -> SessionStatus {
    SessionStatus {
        status: TeamSessionStatus::Starting,
        phase: Some(phase),
        text: StatusText::Nothing,
        server_count: None,
    }
}

pub open spec fn failed(phase: TeamSessionPhase, text: StatusText) -> SessionStatus {
    SessionStatus {
        status: TeamSessionStatus::Failed,
        phase: Some(phase),
        text,
        server_count: None,
    }
}

pub open spec fn ready(members: nat) -> SessionStatus {
    SessionStatus {
        status: TeamSessionStatus::Ready,
        phase: None,
        text: StatusText::Nothing,
        server_count: Some(members as usize),
    }
}

pub fn starting_status(phase: TeamSessionPhase) -> (r: SessionStatus)
    ensures
        r == starting(phase),
{
    SessionStatus {
        status: TeamSessionStatus::Starting,
        phase: Some(phase),
        text: StatusText::Nothing,
        server_count: None,
    }
}

pub fn failed_status(phase: TeamSessionPhase, text: StatusText) -> (r: SessionStatus)
    ensures
        r == failed(phase, text),
{
    SessionStatus {
        status: TeamSessionStatus::Failed,
        phase: Some(phase),
        text,
        server_count: None,
    }
}

pub fn ready_status(members: usize) -> (r: SessionStatus)
    ensures
        r == ready(members as nat),
{
    SessionStatus {
        status: TeamSessionStatus::Ready,
        phase: None,
        text: StatusText::Nothing,
        server_count: Some(members),
    }
}

/// One announcement for each teammate: it sleeps until it is needed.
pub open spec fn dormant_teammates(roster: Seq<TeamAgent>) -> Seq<StartAction>
    decreases roster.len(),
{
    if roster.len() == 0 {
        Seq::empty()
    } else {
        let front = dormant_teammates(roster.drop_last());
        if roster.last().role != TeammateRole::Lead {
            front.push(
                StartAction::AnnounceMember(
                    (roster.len() - 1) as usize,
                    TeamAgentRuntimeStatus::Dormant,
                ),
            )
        } else {
            front
        }
    }
}

/// The end of a request.
pub enum StartEnd {
    /// It goes on.
    Open,
    /// It goes on elsewhere: the members of the running session are brought in
    /// line, and how that ends is how the request ends.
    HandedOver,
    Success,
    /// It ends with the error that the event brought.
    EventError,
    TeamNotFound,
    Invalid(Seq<char>),
    /// The runtime of the lead failed.
    LeadFailed,
}

pub struct StartNext {
    pub stage: StartStage,
    pub actions: Seq<StartAction>,
    pub end: StartEnd,
}

/// What follows from the answer to the request for the lead's runtime, or from
/// the end of its start.
pub open spec fn after_outcome(s: SessionStart, outcome: AttachOutcome) -> StartNext {
    match outcome {
        AttachOutcome::Ready | AttachOutcome::Removed => StartNext {
            stage: StartStage::Draining,
            actions: dormant_teammates(s.roster@) + seq![
                StartAction::Announce(starting(TeamSessionPhase::Recovering)),
                StartAction::DrainRecovery,
            ],
            end: StartEnd::Open,
        },
        AttachOutcome::Failed { .. } => StartNext {
            stage: StartStage::Done,
            actions: seq![
                StartAction::Announce(
                    failed(TeamSessionPhase::AttachingAgents, StatusText::OfFailure),
                ),
                StartAction::StopSession,
                StartAction::UnpublishSession,
            ],
            end: StartEnd::LeadFailed,
        },
        AttachOutcome::SessionStopped => StartNext {
            stage: StartStage::Done,
            actions: seq![StartAction::StopSession, StartAction::UnpublishSession],
            end: StartEnd::Invalid("team session stopped during leader warmup"@),
        },
    }
}

/// What follows from an event. An event that is not awaited changes nothing.
pub open spec fn after_event(s: SessionStart, event: StartEvent) -> StartNext {
    match (s.stage, event) {
        (StartStage::Loading, StartEvent::TeamMissing) => StartNext {
            stage: StartStage::Done,
            actions: seq![
                StartAction::AnnounceToRequester(
                    failed(TeamSessionPhase::LoadingTeam, StatusText::TeamMissing),
                ),
            ],
            end: StartEnd::TeamNotFound,
        },
        (StartStage::Loading, StartEvent::TeamReadFailed(_)) => StartNext {
            stage: StartStage::Done,
            actions: seq![
                StartAction::AnnounceToRequester(
                    failed(TeamSessionPhase::LoadingTeam, StatusText::OfError),
                ),
            ],
            end: StartEnd::EventError,
        },
        (StartStage::Loading, StartEvent::TeamUnreadable(_)) => StartNext {
            stage: StartStage::Done,
            actions: Seq::empty(),
            end: StartEnd::EventError,
        },
        (StartStage::Loading, StartEvent::TeamLoaded { .. }) => StartNext {
            stage: StartStage::Repairing,
            actions: seq![StartAction::RepairModels],
            end: StartEnd::Open,
        },
        (StartStage::Repairing, StartEvent::RepairFailed(_)) => StartNext {
            stage: StartStage::Done,
            actions: Seq::empty(),
            end: StartEnd::EventError,
        },
        (StartStage::Repairing, StartEvent::ModelsRepaired) => StartNext {
            stage: StartStage::Looking,
            actions: seq![StartAction::LookForSession],
            end: StartEnd::Open,
        },
        (StartStage::Looking, StartEvent::SessionRunning) => StartNext {
            stage: StartStage::Done,
            actions: seq![StartAction::ReconcileRunning],
            end: StartEnd::HandedOver,
        },
        (StartStage::Looking, StartEvent::NoSession) => StartNext {
            stage: StartStage::Starting,
            actions: seq![
                StartAction::Announce(starting(TeamSessionPhase::LoadingTeam)),
                StartAction::Announce(starting(TeamSessionPhase::StartingBridge)),
            ] + (if s.project_bound {
                seq![StartAction::EnsureMembers]
            } else {
                Seq::empty()
            }) + seq![StartAction::StartSession],
            end: StartEnd::Open,
        },
        (StartStage::Starting, StartEvent::StartFailed(_)) => StartNext {
            stage: StartStage::Done,
            actions: seq![
                StartAction::Announce(
                    failed(TeamSessionPhase::StartingBridge, StatusText::OfError),
                ),
            ],
            end: StartEnd::EventError,
        },
        (StartStage::Starting, StartEvent::ServiceGone) => StartNext {
            stage: StartStage::Done,
            actions: seq![StartAction::Announce(starting(TeamSessionPhase::AttachingAgents))],
            end: StartEnd::Invalid("team service is shutting down"@),
        },
        (StartStage::Starting, StartEvent::SessionStarted { roster }) => match first_index(
            roster@,
            leads(),
        ) {
            Some(lead) => StartNext {
                stage: StartStage::Reserving,
                actions: seq![
                    StartAction::Announce(starting(TeamSessionPhase::AttachingAgents)),
                    StartAction::PublishSession,
                    StartAction::AnnounceMember(lead as usize, TeamAgentRuntimeStatus::Pending),
                    StartAction::ReserveAttach(lead as usize),
                ],
                end: StartEnd::Open,
            },
            None => StartNext {
                stage: StartStage::Done,
                actions: seq![
                    StartAction::Announce(starting(TeamSessionPhase::AttachingAgents)),
                    StartAction::Announce(
                        failed(TeamSessionPhase::AttachingAgents, StatusText::OfError),
                    ),
                    StartAction::StopSession,
                ],
                end: StartEnd::Invalid("team has no lead agent"@),
            },
        },
        (StartStage::Reserving, StartEvent::Reserved(reservation)) => match reservation {
            ReserveAttach::Start => StartNext {
                stage: StartStage::Attaching,
                actions: seq![StartAction::Attach],
                end: StartEnd::Open,
            },
            ReserveAttach::Join | ReserveAttach::Removing => StartNext {
                stage: StartStage::Attaching,
                actions: seq![StartAction::Wait],
                end: StartEnd::Open,
            },
            ReserveAttach::AlreadyReady => after_outcome(s, AttachOutcome::Ready),
            ReserveAttach::SessionStopped => after_outcome(s, AttachOutcome::SessionStopped),
        },
        (StartStage::Attaching, StartEvent::Attached(outcome)) => after_outcome(s, outcome),
        (StartStage::Draining, StartEvent::Drained) => StartNext {
            stage: StartStage::Done,
            actions: seq![StartAction::Announce(ready(s.roster@.len()))],
            end: StartEnd::Success,
        },
        _ => StartNext { stage: s.stage, actions: Seq::empty(), end: StartEnd::Open },
    }
}

/// The error that an event brought.
pub open spec fn event_error(event: StartEvent) -> Option<TeamError> {
    match event {
        StartEvent::TeamReadFailed(e) => Some(e),
        StartEvent::TeamUnreadable(e) => Some(e),
        StartEvent::RepairFailed(e) => Some(e),
        StartEvent::StartFailed(e) => Some(e),
        _ => None,
    }
}

/// The result says how the request ended.
pub open spec fn ends_as(
    s: SessionStart,
    event: StartEvent,
    end: StartEnd,
    result: Option<Result<(), TeamError>>,
) -> bool {
    match end {
        StartEnd::Open | StartEnd::HandedOver => result is None,
        StartEnd::Success => result == Some(Ok::<(), TeamError>(())),
        StartEnd::EventError => event_error(event) matches Some(e) && result == Some(
            Err::<(), TeamError>(e),
        ),
        StartEnd::TeamNotFound => result matches Some(Err(TeamError::TeamNotFound(x))) && x@
            == s.team_id@,
        StartEnd::Invalid(text) => result matches Some(Err(TeamError::InvalidRequest(x))) && x@
            == text,
        StartEnd::LeadFailed => result matches Some(
            Err(TeamError::MemberRuntimeFailed { team_id, slot_id, conversation_id, public_reason }),
        ) && team_id@ == s.team_id@ && slot_id@ == s.roster@[s.lead as int].slot_id@
            && conversation_id@ == s.roster@[s.lead as int].conversation_id@ && (
        event matches StartEvent::Attached(AttachOutcome::Failed { public_reason: reason })
            && public_reason@ == reason@),
    }
}

/// Once the lead is being started, it is a member of the roster.
pub open spec fn start_wf(s: SessionStart) -> bool {
    (s.stage is Reserving || s.stage is Attaching || s.stage is Draining) ==> s.lead
        < s.roster@.len() && first_index(s.roster@, leads()) == Some(s.lead as int)
}

/// What a start knows after an event.
pub open spec fn start_remembers(s: SessionStart, event: StartEvent, t: SessionStart) -> bool {
    &&& t.team_id == s.team_id
    &&& t.stage == after_event(s, event).stage
    &&& t.project_bound == match (s.stage, event) {
        (StartStage::Loading, StartEvent::TeamLoaded { project_bound }) => project_bound,
        _ => s.project_bound,
    }
    &&& t.roster@ == match (s.stage, event) {
        (StartStage::Starting, StartEvent::SessionStarted { roster }) => roster@,
        _ => s.roster@,
    }
}

impl SessionStart {
    pub fn new(team_id: &str) -> (r: SessionStart)
        ensures
            r.team_id@ == team_id@,
            r.stage is Loading,
            start_wf(r),
    {
        SessionStart {
            team_id: team_id.to_owned(),
            stage: StartStage::Loading,
            project_bound: false,
            roster: Vec::new(),
            lead: 0,
        }
    }

    fn dormant(&self) -> (r: Vec<StartAction>)
        ensures
            r@ == dormant_teammates(self.roster@),
    {
        let mut r: Vec<StartAction> = Vec::new();
        let mut i: usize = 0;
        assert(dormant_teammates(self.roster@.take(0)) =~= Seq::<StartAction>::empty());
        while i < self.roster.len()
            invariant
                i <= self.roster@.len(),
                r@ == dormant_teammates(self.roster@.take(i as int)),
            decreases self.roster@.len() - i,
        {
            proof {
                assert(self.roster@.take(i + 1).drop_last() =~= self.roster@.take(i as int));
                assert(self.roster@.take(i + 1).last() == self.roster@[i as int]);
            }
            if self.roster[i].role != TeammateRole::Lead {
                r.push(StartAction::AnnounceMember(i, TeamAgentRuntimeStatus::Dormant));
            }
            i = i + 1;
        }
        assert(self.roster@.take(i as int) =~= self.roster@);
        r
    }

    fn leader_attached(&mut self, outcome: AttachOutcome) -> (r: StartStep)
        requires
            start_wf(*old(self)),
            old(self).lead < old(self).roster@.len(),
            first_index(old(self).roster@, leads()) == Some(old(self).lead as int),
        ensures
            *final(self) == (SessionStart {
                stage: after_outcome(*old(self), outcome).stage,
                ..*old(self)
            }),
            r.actions@ == after_outcome(*old(self), outcome).actions,
            ends_as(
                *old(self),
                StartEvent::Attached(outcome),
                after_outcome(*old(self), outcome).end,
                r.result,
            ),
    {
        match outcome {
            AttachOutcome::Failed { public_reason } => {
                let mut actions: Vec<StartAction> = Vec::new();
                actions.push(
                    StartAction::Announce(
                        failed_status(TeamSessionPhase::AttachingAgents, StatusText::OfFailure),
                    ),
                );
                actions.push(StartAction::StopSession);
                actions.push(StartAction::UnpublishSession);
                assert(actions@ =~= after_outcome(*old(self), outcome).actions);
                let error = TeamError::MemberRuntimeFailed {
                    team_id: self.team_id.clone(),
                    slot_id: self.roster[self.lead].slot_id.clone(),
                    conversation_id: self.roster[self.lead].conversation_id.clone(),
                    public_reason,
                };
                self.stage = StartStage::Done;
                StartStep { actions, result: Some(Err(error)) }
            },
            AttachOutcome::SessionStopped => {
                let mut actions: Vec<StartAction> = Vec::new();
                actions.push(StartAction::StopSession);
                actions.push(StartAction::UnpublishSession);
                assert(actions@ =~= after_outcome(*old(self), outcome).actions);
                self.stage = StartStage::Done;
                StartStep {
                    actions,
                    result: Some(
                        Err(
                            TeamError::InvalidRequest(
                                "team session stopped during leader warmup".to_owned(),
                            ),
                        ),
                    ),
                }
            },
            _ => {
                let mut actions = self.dormant();
                actions.push(StartAction::Announce(starting_status(TeamSessionPhase::Recovering)));
                actions.push(StartAction::DrainRecovery);
                assert(actions@ =~= after_outcome(*old(self), outcome).actions);
                self.stage = StartStage::Draining;
                StartStep { actions, result: None }
            },
        }
    }

    /// Takes in what happened and says what is to be done.
    #[verifier::rlimit(40)]
    pub fn step(&mut self, event: StartEvent) -> (r: StartStep)
        requires
            start_wf(*old(self)),
        ensures
            start_wf(*final(self)),
            final(self).team_id == old(self).team_id,
            final(self).stage == after_event(*old(self), event).stage,
            r.actions@ == after_event(*old(self), event).actions,
            ends_as(*old(self), event, after_event(*old(self), event).end, r.result),
            final(self).project_bound == match (old(self).stage, event) {
                (StartStage::Loading, StartEvent::TeamLoaded { project_bound }) => project_bound,
                _ => old(self).project_bound,
            },
            final(self).roster@ == match (old(self).stage, event) {
                (StartStage::Starting, StartEvent::SessionStarted { roster }) => roster@,
                _ => old(self).roster@,
            },
            start_remembers(*old(self), event, *final(self)),
    {
        let ghost next = after_event(*self, event);
        let mut actions: Vec<StartAction> = Vec::new();
        let mut result: Option<Result<(), TeamError>> = None;
        match (self.stage, event) {
            (StartStage::Loading, StartEvent::TeamMissing) => {
                actions.push(
                    StartAction::AnnounceToRequester(
                        failed_status(TeamSessionPhase::LoadingTeam, StatusText::TeamMissing),
                    ),
                );
                self.stage = StartStage::Done;
                result = Some(Err(TeamError::TeamNotFound(self.team_id.clone())));
            },
            (StartStage::Loading, StartEvent::TeamUnreadable(e)) => {
                self.stage = StartStage::Done;
                result = Some(Err(e));
            },
            (StartStage::Loading, StartEvent::TeamReadFailed(e)) => {
                actions.push(
                    StartAction::AnnounceToRequester(
                        failed_status(TeamSessionPhase::LoadingTeam, StatusText::OfError),
                    ),
                );
                self.stage = StartStage::Done;
                result = Some(Err(e));
            },
            (StartStage::Loading, StartEvent::TeamLoaded { project_bound }) => {
                actions.push(StartAction::RepairModels);
                self.project_bound = project_bound;
                self.stage = StartStage::Repairing;
            },
            (StartStage::Repairing, StartEvent::RepairFailed(e)) => {
                self.stage = StartStage::Done;
                result = Some(Err(e));
            },
            (StartStage::Repairing, StartEvent::ModelsRepaired) => {
                actions.push(StartAction::LookForSession);
                self.stage = StartStage::Looking;
            },
            (StartStage::Looking, StartEvent::SessionRunning) => {
                actions.push(StartAction::ReconcileRunning);
                self.stage = StartStage::Done;
            },
            (StartStage::Looking, StartEvent::NoSession) => {
                actions.push(StartAction::Announce(starting_status(TeamSessionPhase::LoadingTeam)));
                actions.push(
                    StartAction::Announce(starting_status(TeamSessionPhase::StartingBridge)),
                );
                if self.project_bound {
                    actions.push(StartAction::EnsureMembers);
                }
                actions.push(StartAction::StartSession);
                self.stage = StartStage::Starting;
            },
            (StartStage::Starting, StartEvent::StartFailed(e)) => {
                actions.push(
                    StartAction::Announce(
                        failed_status(TeamSessionPhase::StartingBridge, StatusText::OfError),
                    ),
                );
                self.stage = StartStage::Done;
                result = Some(Err(e));
            },
            (StartStage::Starting, StartEvent::ServiceGone) => {
                actions.push(
                    StartAction::Announce(starting_status(TeamSessionPhase::AttachingAgents)),
                );
                self.stage = StartStage::Done;
                result = Some(
                    Err(TeamError::InvalidRequest("team service is shutting down".to_owned())),
                );
            },
            (StartStage::Starting, StartEvent::SessionStarted { roster }) => {
                actions.push(
                    StartAction::Announce(starting_status(TeamSessionPhase::AttachingAgents)),
                );
                match lead_position(roster.as_slice()) {
                    Some(lead) => {
                        actions.push(StartAction::PublishSession);
                        actions.push(
                            StartAction::AnnounceMember(lead, TeamAgentRuntimeStatus::Pending),
                        );
                        actions.push(StartAction::ReserveAttach(lead));
                        self.lead = lead;
                        self.stage = StartStage::Reserving;
                    },
                    None => {
                        actions.push(
                            StartAction::Announce(
                                failed_status(
                                    TeamSessionPhase::AttachingAgents,
                                    StatusText::OfError,
                                ),
                            ),
                        );
                        actions.push(StartAction::StopSession);
                        self.stage = StartStage::Done;
                        result = Some(
                            Err(TeamError::InvalidRequest("team has no lead agent".to_owned())),
                        );
                    },
                }
                self.roster = roster;
            },
            (StartStage::Reserving, StartEvent::Reserved(reservation)) => {
                match reservation {
                    ReserveAttach::Start => {
                        actions.push(StartAction::Attach);
                        self.stage = StartStage::Attaching;
                    },
                    ReserveAttach::Join | ReserveAttach::Removing => {
                        actions.push(StartAction::Wait);
                        self.stage = StartStage::Attaching;
                    },
                    ReserveAttach::AlreadyReady => {
                        return self.leader_attached(AttachOutcome::Ready);
                    },
                    ReserveAttach::SessionStopped => {
                        return self.leader_attached(AttachOutcome::SessionStopped);
                    },
                }
            },
            (StartStage::Attaching, StartEvent::Attached(outcome)) => {
                return self.leader_attached(outcome);
            },
            (StartStage::Draining, StartEvent::Drained) => {
                actions.push(StartAction::Announce(ready_status(self.roster.len())));
                self.stage = StartStage::Done;
                result = Some(Ok(()));
            },
            _ => {},
        }
        assert(actions@ =~= next.actions);
        StartStep { actions, result }
    }
}

/// Whether the session is published after the actions, in their order.
pub open spec fn published_after(before: bool, actions: Seq<StartAction>) -> bool
    decreases actions.len(),
{
    if actions.len() == 0 {
        before
    } else {
        match actions.last() {
            StartAction::PublishSession => true,
            StartAction::UnpublishSession => false,
            _ => published_after(before, actions.drop_last()),
        }
    }
}

/// The lead is being started, or messages are being picked up.
pub open spec fn under_way(stage: StartStage) -> bool {
    stage is Reserving || stage is Attaching || stage is Draining
}

proof fn lemma_dormant(before: bool, roster: Seq<TeamAgent>, tail: Seq<StartAction>)
    requires
        forall|i: int|
            0 <= i < tail.len() ==> !((#[trigger] tail[i]) is PublishSession)
                && !(tail[i] is UnpublishSession),
    ensures
        published_after(before, dormant_teammates(roster) + tail) == before,
    decreases roster.len(), tail.len(),
{
    let all = dormant_teammates(roster) + tail;
    if tail.len() > 0 {
        assert(all.drop_last() =~= dormant_teammates(roster) + tail.drop_last());
        assert(all.last() == tail[tail.len() - 1]);
        assert forall|i: int| 0 <= i < tail.drop_last().len() implies !((
        #[trigger] tail.drop_last()[i]) is PublishSession) && !(
        tail.drop_last()[i] is UnpublishSession) by {
            assert(tail[i] == tail.drop_last()[i]);
        }
        lemma_dormant(before, roster, tail.drop_last());
    } else if roster.len() > 0 {
        let none = Seq::<StartAction>::empty();
        lemma_dormant(before, roster.drop_last(), none);
        assert(dormant_teammates(roster.drop_last()) + none =~= dormant_teammates(
            roster.drop_last(),
        ));
        assert(all =~= dormant_teammates(roster));
        assert(dormant_teammates(roster).len() > dormant_teammates(roster.drop_last()).len()
            ==> dormant_teammates(roster).drop_last() =~= dormant_teammates(roster.drop_last()));
    } else {
        assert(all =~= Seq::<StartAction>::empty());
    }
}

/// A session is published exactly from the moment at which its lead is asked
/// for until the start ends, and stays so only where the start succeeded: a
/// start that fails takes its session down.
pub proof fn law_failed_start_leaves_no_session(s: SessionStart, event: StartEvent)
    requires
        !(s.stage is Done),
    ensures
        ({
            let n = after_event(s, event);
            published_after(under_way(s.stage), n.actions) == (under_way(n.stage) || (
            under_way(s.stage) && n.end is Success))
        }),
        ({
            let n = after_event(s, event);
            !(n.end is Open || n.end is Success) ==> !published_after(under_way(s.stage), n.actions)
        }),
{
    reveal_with_fuel(published_after, 6);
    let n = after_event(s, event);
    let tail = seq![
        StartAction::Announce(starting(TeamSessionPhase::Recovering)),
        StartAction::DrainRecovery,
    ];
    lemma_dormant(true, s.roster@, tail);
    match (s.stage, event) {
        (StartStage::Looking, StartEvent::NoSession) => {
            if s.project_bound {
                assert(n.actions =~= seq![
                    StartAction::Announce(starting(TeamSessionPhase::LoadingTeam)),
                    StartAction::Announce(starting(TeamSessionPhase::StartingBridge)),
                    StartAction::EnsureMembers,
                    StartAction::StartSession,
                ]);
            } else {
                assert(n.actions =~= seq![
                    StartAction::Announce(starting(TeamSessionPhase::LoadingTeam)),
                    StartAction::Announce(starting(TeamSessionPhase::StartingBridge)),
                    StartAction::StartSession,
                ]);
            }
        },
        _ => {},
    }
}

/// Only the lead is started with the session; it is the member that is asked
/// for.
pub proof fn law_only_the_lead_is_started(s: SessionStart, event: StartEvent, k: int)
    requires
        0 <= k < after_event(s, event).actions.len(),
        after_event(s, event).actions[k] is ReserveAttach,
    ensures
        event is SessionStarted,
        ({
            let roster = event->roster@;
            let i = after_event(s, event).actions[k]->ReserveAttach_0;
            first_index(roster, leads()) == Some(i as int) && roster[i as int].role
                == TeammateRole::Lead
        }),
{
    assert(s.roster@.len() == s.roster.len());
    lemma_dormant_only_announces(s.roster@);
    match event {
        StartEvent::SessionStarted { roster } => {
            assert(roster@.len() == roster.len());
            lemma_first_index(roster@, leads());
            assert(s.stage is Starting);
        },
        StartEvent::Reserved(_) => {},
        StartEvent::Attached(_) => {},
        _ => {},
    }
}

proof fn lemma_dormant_only_announces(roster: Seq<TeamAgent>)
    requires
        roster.len() <= usize::MAX,
    ensures
        forall|i: int|
            0 <= i < dormant_teammates(roster).len() ==> (#[trigger] dormant_teammates(
                roster,
            )[i]) is AnnounceMember && dormant_teammates(roster)[i]->AnnounceMember_1
                == TeamAgentRuntimeStatus::Dormant && dormant_teammates(
                roster,
            )[i]->AnnounceMember_0 < roster.len() && roster[dormant_teammates(
                roster,
            )[i]->AnnounceMember_0 as int].role != TeammateRole::Lead,
    decreases roster.len(),
{
    if roster.len() > 0 {
        lemma_dormant_only_announces(roster.drop_last());
        let front = dormant_teammates(roster.drop_last());
        let all = dormant_teammates(roster);
        assert forall|i: int| 0 <= i < all.len() implies (#[trigger] all[i]) is AnnounceMember
            && all[i]->AnnounceMember_1 == TeamAgentRuntimeStatus::Dormant
            && all[i]->AnnounceMember_0 < roster.len()
            && roster[all[i]->AnnounceMember_0 as int].role != TeammateRole::Lead by {
            if i < front.len() {
                assert(all[i] == front[i]);
                assert(roster.drop_last()[front[i]->AnnounceMember_0 as int]
                    == roster[front[i]->AnnounceMember_0 as int]);
            }
        }
    }
}

/// Every teammate is announced as asleep once the lead runs, and nobody else
/// is.
pub proof fn law_teammates_start_asleep(roster: Seq<TeamAgent>, i: int)
    requires
        0 <= i < roster.len() <= usize::MAX,
    ensures
        dormant_teammates(roster).contains(
            StartAction::AnnounceMember(i as usize, TeamAgentRuntimeStatus::Dormant),
        ) <==> roster[i].role != TeammateRole::Lead,
    decreases roster.len(),
{
    let all = dormant_teammates(roster);
    let said = StartAction::AnnounceMember(i as usize, TeamAgentRuntimeStatus::Dormant);
    let front = dormant_teammates(roster.drop_last());
    lemma_dormant_only_announces(roster);
    if all.contains(said) {
        let k = choose|k: int| 0 <= k < all.len() && all[k] == said;
        assert(roster[all[k]->AnnounceMember_0 as int].role != TeammateRole::Lead);
    }
    if roster[i].role != TeammateRole::Lead {
        if i == roster.len() - 1 {
            assert(all[front.len() as int] == said);
        } else {
            law_teammates_start_asleep(roster.drop_last(), i);
            let k = choose|k: int| 0 <= k < front.len() && front[k] == said;
            assert(all[k] == said);
        }
    }
}

/// A session is announced as ready only by the step with which its start
/// succeeds.
pub proof fn law_ready_means_started(s: SessionStart, event: StartEvent, k: int)
    requires
        0 <= k < after_event(s, event).actions.len(),
        after_event(s, event).actions[k] matches StartAction::Announce(a) && a.status
            == TeamSessionStatus::Ready,
    ensures
        after_event(s, event).end is Success,
{
    assert(s.roster@.len() == s.roster.len());
    lemma_dormant_only_announces(s.roster@);
    let n = after_event(s, event);
    if s.stage is Looking && event is NoSession {
        assert(n.actions[k] is Announce ==> k < 2);
    }
}

/// The announcement of a status that has a phase and no count.
pub open spec fn announcement(
    status: TeamSessionStatus,
    phase: TeamSessionPhase,
    text: StatusText,
) -> StartAction {
    StartAction::Announce(SessionStatus { status, phase: Some(phase), text, server_count: None })
}

/// The runtime of the lead came up, or had before, or is not wanted any more.
pub open spec fn lead_is_up(s: SessionStart, event: StartEvent) -> bool {
    ||| s.stage is Attaching && (event matches StartEvent::Attached(AttachOutcome::Ready))
    ||| s.stage is Attaching && (event matches StartEvent::Attached(AttachOutcome::Removed))
    ||| s.stage is Reserving && (event matches StartEvent::Reserved(ReserveAttach::AlreadyReady))
}

/// The session stopped, or the runtime of the lead did not come up.
pub open spec fn lead_is_lost(s: SessionStart, event: StartEvent) -> bool {
    ||| s.stage is Attaching && (event matches StartEvent::Attached(AttachOutcome::SessionStopped))
    ||| s.stage is Attaching && (event matches StartEvent::Attached(outcome) && outcome is Failed)
    ||| s.stage is Reserving && (event matches StartEvent::Reserved(ReserveAttach::SessionStopped))
}

/// The session started with a roster in which nobody leads.
pub open spec fn nobody_leads(s: SessionStart, event: StartEvent) -> bool {
    s.stage is Starting && (event matches StartEvent::SessionStarted { roster } && forall|i: int|
        0 <= i < roster@.len() ==> (#[trigger] roster@[i]).role == TeammateRole::Teammate)
}

proof fn lemma_leads(roster: Seq<TeamAgent>)
    ensures
        first_index(roster, leads()) is None <==> forall|i: int|
            0 <= i < roster.len() ==> (#[trigger] roster[i]).role == TeammateRole::Teammate,
{
    crate::roster::law_first_lead_leads(roster);
    if let Some(i) = first_index(roster, leads()) {
        assert(roster[i].role == TeammateRole::Lead);
    }
}

/// A start asks for each thing at one moment and at no other: members are made only
/// for a team that is bound to a project, a session is published only where somebody
/// leads, and one whose lead is lost is stopped and taken back.
pub proof fn law_start_asks_in_turn(s: SessionStart, event: StartEvent)
    requires
        !lead_is_up(s, event),
    ensures
        ({
            let a = after_event(s, event).actions;
            &&& a.contains(StartAction::RepairModels) <==> s.stage is Loading && event is TeamLoaded
            &&& a.contains(StartAction::LookForSession) <==> s.stage is Repairing
                && event is ModelsRepaired
            &&& a.contains(StartAction::ReconcileRunning) <==> s.stage is Looking
                && event is SessionRunning
            &&& a.contains(StartAction::EnsureMembers) <==> s.stage is Looking && event is NoSession
                && s.project_bound
            &&& a.contains(StartAction::StartSession) <==> s.stage is Looking && event is NoSession
            &&& a.contains(StartAction::StartSession) ==> a.last() == StartAction::StartSession
            &&& a.contains(StartAction::PublishSession) <==> s.stage is Starting
                && event is SessionStarted && !nobody_leads(s, event)
            &&& a.contains(StartAction::StopSession) <==> nobody_leads(s, event) || lead_is_lost(
                s,
                event,
            )
            &&& a.contains(StartAction::UnpublishSession) <==> lead_is_lost(s, event)
            &&& a.contains(StartAction::Attach) <==> s.stage is Reserving
                && (event matches StartEvent::Reserved(ReserveAttach::Start))
            &&& a.contains(StartAction::Wait) <==> s.stage is Reserving && (
            event matches StartEvent::Reserved(r) && (r == ReserveAttach::Join || r
                == ReserveAttach::Removing))
            &&& !a.contains(StartAction::DrainRecovery)
            &&& a.len() <= 4
        }),
{
    let n = after_event(s, event);
    lemma_start_actions(s, event);
    lemma_few(n.actions);
    if let StartEvent::SessionStarted { roster } = event {
        lemma_leads(roster@);
    }
}

proof fn lemma_start_actions(s: SessionStart, event: StartEvent)
    ensures
        s.stage is Looking && event is NoSession ==> after_event(s, event).actions
            =~= if s.project_bound {
            seq![
                StartAction::Announce(starting(TeamSessionPhase::LoadingTeam)),
                StartAction::Announce(starting(TeamSessionPhase::StartingBridge)),
                StartAction::EnsureMembers,
                StartAction::StartSession,
            ]
        } else {
            seq![
                StartAction::Announce(starting(TeamSessionPhase::LoadingTeam)),
                StartAction::Announce(starting(TeamSessionPhase::StartingBridge)),
                StartAction::StartSession,
            ]
        },
{
}

/// A start shows each phase when it comes to it, and each failure with the phase in
/// which it happened. That a team is missing, or could not be read, only the one who
/// asked is told.
pub proof fn law_start_shows_where_it_is(s: SessionStart, event: StartEvent)
    requires
        !lead_is_up(s, event),
    ensures
        ({
            let a = after_event(s, event).actions;
            let begins = |p: TeamSessionPhase|
                announcement(TeamSessionStatus::Starting, p, StatusText::Nothing);
            &&& a.contains(begins(TeamSessionPhase::LoadingTeam)) <==> s.stage is Looking
                && event is NoSession
            &&& a.contains(begins(TeamSessionPhase::StartingBridge)) <==> s.stage is Looking
                && event is NoSession
            &&& s.stage is Looking && event is NoSession ==> a[0] == begins(
                TeamSessionPhase::LoadingTeam,
            ) && a[1] == begins(TeamSessionPhase::StartingBridge)
            &&& a.contains(begins(TeamSessionPhase::AttachingAgents)) <==> s.stage is Starting && (
            event is ServiceGone || event is SessionStarted)
            &&& a.contains(begins(TeamSessionPhase::AttachingAgents)) ==> a[0] == begins(
                TeamSessionPhase::AttachingAgents,
            )
            &&& a.contains(
                announcement(
                    TeamSessionStatus::Failed,
                    TeamSessionPhase::StartingBridge,
                    StatusText::OfError,
                ),
            ) <==> s.stage is Starting && event is StartFailed
            &&& a.contains(
                announcement(
                    TeamSessionStatus::Failed,
                    TeamSessionPhase::AttachingAgents,
                    StatusText::OfError,
                ),
            ) <==> nobody_leads(s, event)
            &&& a.contains(
                announcement(
                    TeamSessionStatus::Failed,
                    TeamSessionPhase::AttachingAgents,
                    StatusText::OfFailure,
                ),
            ) <==> s.stage is Attaching && (event matches StartEvent::Attached(outcome) && outcome
                is Failed)
            &&& s.stage is Loading && event is TeamMissing ==> a.len() == 1 && (
            a[0] matches StartAction::AnnounceToRequester(x) && x.status
                == TeamSessionStatus::Failed && x.phase == Some(TeamSessionPhase::LoadingTeam)
                && x.text == StatusText::TeamMissing && x.server_count is None)
            &&& s.stage is Loading && event is TeamReadFailed ==> a.len() == 1 && (
            a[0] matches StartAction::AnnounceToRequester(x) && x.status
                == TeamSessionStatus::Failed && x.phase == Some(TeamSessionPhase::LoadingTeam)
                && x.text == StatusText::OfError && x.server_count is None)
            &&& s.stage is Draining && event is Drained ==> a.len() == 1 && (
            a[0] matches StartAction::Announce(x) && x.status == TeamSessionStatus::Ready
                && x.phase is None && x.text == StatusText::Nothing && x.server_count == Some(
                s.roster@.len() as usize,
            ))
        }),
{
    let n = after_event(s, event);
    lemma_start_actions(s, event);
    lemma_few(n.actions);
    if let StartEvent::SessionStarted { roster } = event {
        lemma_leads(roster@);
    }
}

/// Once the lead is up, every teammate is shown as asleep and nobody else is, then the
/// session as recovering, and last what was waiting is worked off.
pub proof fn law_recovery_follows_the_lead(s: SessionStart, event: StartEvent, i: int)
    requires
        lead_is_up(s, event),
        0 <= i < s.roster@.len(),
    ensures
        ({
            let n = after_event(s, event);
            let a = n.actions;
            &&& n.stage is Draining
            &&& a.len() >= 2
            &&& a[a.len() - 1] == StartAction::DrainRecovery
            &&& a[a.len() - 2] == announcement(
                TeamSessionStatus::Starting,
                TeamSessionPhase::Recovering,
                StatusText::Nothing,
            )
            &&& a.contains(StartAction::AnnounceMember(i as usize, TeamAgentRuntimeStatus::Dormant))
                <==> s.roster@[i].role == TeammateRole::Teammate
            &&& forall|k: int| 0 <= k < a.len() - 2 ==> #[trigger] a[k] is AnnounceMember
        }),
{
    let a = after_event(s, event).actions;
    let d = dormant_teammates(s.roster@);
    assert(s.roster@.len() == s.roster.len());
    lemma_dormant_only_announces(s.roster@);
    law_teammates_start_asleep(s.roster@, i);
    let said = StartAction::AnnounceMember(i as usize, TeamAgentRuntimeStatus::Dormant);
    if d.contains(said) {
        let k = choose|k: int| 0 <= k < d.len() && d[k] == said;
        assert(a[k] == said);
    }
    if a.contains(said) {
        let k = choose|k: int| 0 <= k < a.len() && a[k] == said;
        assert(k < d.len());
        assert(d[k] == said);
    }
    assert forall|k: int| 0 <= k < a.len() - 2 implies #[trigger] a[k] is AnnounceMember by {
        assert(a[k] == d[k]);
    }
}

/// A start answers once, and with what happened: success exactly where what was
/// waiting is worked off. A session that runs already answers for itself.
pub proof fn law_start_answers_what_happened(
    s: SessionStart,
    event: StartEvent,
    result: Option<Result<(), TeamError>>,
)
    requires
        ends_as(s, event, after_event(s, event).end, result),
    ensures
        result == Some(Ok::<(), TeamError>(())) <==> s.stage is Draining && event is Drained,
        s.stage is Done ==> result is None && after_event(s, event).stage is Done,
        !(s.stage is Done) ==> (after_event(s, event).stage is Done <==> result is Some || (s.stage
            is Looking && event is SessionRunning)),
        s.stage is Loading && event is TeamMissing ==> (result matches Some(
            Err(TeamError::TeamNotFound(x)),
        ) && x@ == s.team_id@),
        s.stage is Loading ==> (event matches StartEvent::TeamReadFailed(e) ==> result == Some(
            Err::<(), TeamError>(e),
        )),
        s.stage is Loading ==> (event matches StartEvent::TeamUnreadable(e) ==> result == Some(
            Err::<(), TeamError>(e),
        )),
        s.stage is Repairing ==> (event matches StartEvent::RepairFailed(e) ==> result == Some(
            Err::<(), TeamError>(e),
        )),
        s.stage is Starting ==> (event matches StartEvent::StartFailed(e) ==> result == Some(
            Err::<(), TeamError>(e),
        )),
        s.stage is Starting && event is ServiceGone ==> (result matches Some(
            Err(TeamError::InvalidRequest(x)),
        ) && x@ == "team service is shutting down"@),
        nobody_leads(s, event) ==> (result matches Some(Err(TeamError::InvalidRequest(x))) && x@
            == "team has no lead agent"@),
        lead_is_lost(s, event) && !(s.stage is Attaching && (
        event matches StartEvent::Attached(outcome) && outcome is Failed)) ==> (result matches Some(
            Err(TeamError::InvalidRequest(x)),
        ) && x@ == "team session stopped during leader warmup"@),
        s.stage is Attaching ==> (event matches StartEvent::Attached(
            AttachOutcome::Failed { public_reason: reason },
        ) ==> (result matches Some(
            Err(TeamError::MemberRuntimeFailed { team_id, slot_id, conversation_id, public_reason }),
        ) && team_id@ == s.team_id@ && slot_id@ == s.roster@[s.lead as int].slot_id@
            && conversation_id@ == s.roster@[s.lead as int].conversation_id@ && public_reason@
            == reason@)),
        lead_is_up(s, event) ==> result is None,
{
    if let StartEvent::SessionStarted { roster } = event {
        lemma_leads(roster@);
    }
}

/// A start keeps what it learned: whether the team is bound to a project, from the team
/// that was loaded, and who works in the session, from the session that started.
pub proof fn law_start_keeps_what_it_learned(s: SessionStart, event: StartEvent, t: SessionStart)
    requires
        start_remembers(s, event, t),
    ensures
        t.team_id == s.team_id,
        s.stage is Loading ==> (event matches StartEvent::TeamLoaded { project_bound }
            ==> t.project_bound == project_bound && t.stage is Repairing),
        !(s.stage is Loading) ==> t.project_bound == s.project_bound,
        s.stage is Starting ==> (event matches StartEvent::SessionStarted { roster } ==> t.roster@
            == roster@),
        !(s.stage is Starting) ==> t.roster@ == s.roster@,
{
}

} // verus!
