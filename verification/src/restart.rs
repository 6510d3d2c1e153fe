//! Restarting the runtime of a member.
use crate::error::{TeamContextResetAvailability, TeamError};
use crate::runtime::{
    AttachOutcome, MemberRuntimeSnapshot, ReserveAttach, RuntimeRestartRejection,
    TeamAgentRuntimeStatus,
};
use crate::search::lemma_few;
use vstd::prelude::*;

verus! {

/// The member that a request is about.
#[derive(Debug)]
pub struct MemberTarget {
    pub team_id: String,
    pub slot_id: String,
    pub conversation_id: String,
}

/// How a refused or failed request is answered.
pub enum Refusal {
    Starting,
    NotReady,
    Busy,
    BeingRemoved,
    SessionNotFound,
    AgentNotFound,
    /// The service is going away.
    ServiceGone,
    RuntimeFailed(Seq<char>),
    ResetUnavailable(TeamContextResetAvailability),
}

/// The error is the answer for that member.
pub open spec fn answers(e: TeamError, t: MemberTarget, why: Refusal) -> bool {
    match why {
        Refusal::Starting => e matches TeamError::MemberRuntimeStarting {
            team_id,
            slot_id,
            conversation_id,
        } && team_id@ == t.team_id@ && slot_id@ == t.slot_id@ && conversation_id@
            == t.conversation_id@,
        Refusal::NotReady => e matches TeamError::RuntimeNotReady { conversation_id }
            && conversation_id@ == t.conversation_id@,
        Refusal::Busy => e matches TeamError::MemberBusy { team_id, slot_id, conversation_id }
            && team_id@ == t.team_id@ && slot_id@ == t.slot_id@ && conversation_id@
            == t.conversation_id@,
        Refusal::BeingRemoved => e matches TeamError::InvalidRequest(x) && x@
            == "team member runtime is being removed: "@ + t.slot_id@,
        Refusal::SessionNotFound => e matches TeamError::SessionNotFound(x) && x@ == t.team_id@,
        Refusal::ServiceGone => e matches TeamError::InvalidRequest(x) && x@
            == "team service is shutting down"@,
        Refusal::AgentNotFound => e matches TeamError::AgentNotFound(x) && x@ == t.slot_id@,
        Refusal::RuntimeFailed(reason) => e matches TeamError::MemberRuntimeFailed {
            team_id,
            slot_id,
            conversation_id,
            public_reason,
        } && team_id@ == t.team_id@ && slot_id@ == t.slot_id@ && conversation_id@
            == t.conversation_id@ && public_reason@ == reason,
        Refusal::ResetUnavailable(why) => e matches TeamError::ContextResetUnavailable {
            team_id,
            slot_id,
            conversation_id,
            availability,
        } && team_id@ == t.team_id@ && slot_id@ == t.slot_id@ && conversation_id@
            == t.conversation_id@ && availability == why,
    }
}

impl MemberTarget {
    pub fn starting(&self) -> (r: TeamError)
        ensures
            answers(r, *self, Refusal::Starting),
    {
        TeamError::MemberRuntimeStarting {
            team_id: self.team_id.clone(),
            slot_id: self.slot_id.clone(),
            conversation_id: self.conversation_id.clone(),
        }
    }

    pub fn not_ready(&self) -> (r: TeamError)
        ensures
            answers(r, *self, Refusal::NotReady),
    {
        TeamError::RuntimeNotReady { conversation_id: self.conversation_id.clone() }
    }

    pub fn busy(&self) -> (r: TeamError)
        ensures
            answers(r, *self, Refusal::Busy),
    {
        TeamError::MemberBusy {
            team_id: self.team_id.clone(),
            slot_id: self.slot_id.clone(),
            conversation_id: self.conversation_id.clone(),
        }
    }

    pub fn being_removed(&self) -> (r: TeamError)
        ensures
            answers(r, *self, Refusal::BeingRemoved),
    {
        let mut text = "team member runtime is being removed: ".to_owned();
        text.append(self.slot_id.as_str());
        TeamError::InvalidRequest(text)
    }

    pub fn service_gone(&self) -> (r: TeamError)
        ensures
            answers(r, *self, Refusal::ServiceGone),
    {
        TeamError::InvalidRequest("team service is shutting down".to_owned())
    }

    pub fn session_not_found(&self) -> (r: TeamError)
        ensures
            answers(r, *self, Refusal::SessionNotFound),
    {
        TeamError::SessionNotFound(self.team_id.clone())
    }

    pub fn runtime_failed(&self, reason: String) -> (r: TeamError)
        ensures
            answers(r, *self, Refusal::RuntimeFailed(reason@)),
    {
        TeamError::MemberRuntimeFailed {
            team_id: self.team_id.clone(),
            slot_id: self.slot_id.clone(),
            conversation_id: self.conversation_id.clone(),
            public_reason: reason,
        }
    }

    pub fn reset_unavailable(&self, why: TeamContextResetAvailability) -> (r: TeamError)
        ensures
            answers(r, *self, Refusal::ResetUnavailable(why)),
    {
        TeamError::ContextResetUnavailable {
            team_id: self.team_id.clone(),
            slot_id: self.slot_id.clone(),
            conversation_id: self.conversation_id.clone(),
            availability: why,
        }
    }
}

/// How far a restart has come: what is awaited.
#[derive(Debug, Clone, Copy, PartialEq, Eq, Structural)]
pub enum RestartStage {
    /// The session is being started where it does not run.
    Ensuring,
    /// The session is being looked for.
    Looking,
    /// The state of the runtime is being read.
    Reading,
    /// The hold that keeps new work away is being asked for.
    Holding,
    /// The runtime is being asked for; the hold is held.
    Reserving,
    /// The runtime is starting; the hold goes with it.
    Attaching,
    Done,
}

#[derive(Debug)]
pub enum RestartEvent {
    SessionEnsured,
    EnsureFailed(TeamError),
    NoSession,
    /// The session runs, with the member in that conversation.
    SessionFound { conversation_id: String },
    /// Looking failed, or the session does not have the member.
    LookupFailed(TeamError),
    /// The session has the member, but the service is going away.
    ServiceGone,
    Snapshot(MemberRuntimeSnapshot),
    HoldTaken,
    HoldRefused(RuntimeRestartRejection),
    Reserved(ReserveAttach),
    Attached(AttachOutcome),
}

#[derive(Debug, Clone, Copy, PartialEq, Eq, Structural)]
pub enum RestartAction {
    /// Start the session where it does not run, or bring its members in line.
    EnsureSession,
    LookForSession,
    ReadSnapshot,
    /// Ask for the hold. Queued work stands in the way only of a request that
    /// does not allow for it.
    BeginRestart { allow_queued: bool },
    ReserveRestart,
    /// Give the hold back.
    AbortRestart,
    Announce(TeamAgentRuntimeStatus),
    Attach,
}

/// The restart of one member's runtime.
#[derive(Debug)]
pub struct Restart {
    pub target: MemberTarget,
    pub allow_queued: bool,
    pub stage: RestartStage,
}

#[derive(Debug)]
pub struct RestartStep {
    pub actions: Vec<RestartAction>,
    pub result: Option<Result<(), TeamError>>,
}

pub enum RestartEnd {
    Open,
    Success,
    Refused(Refusal),
    /// The request ends with the error that the event brought.
    EventError,
}

pub struct RestartNext {
    pub stage: RestartStage,
    pub actions: Seq<RestartAction>,
    pub end: RestartEnd,
}

/// The request ends with that answer.
pub open spec fn refused(actions: Seq<RestartAction>, why: Refusal) -> RestartNext {
    RestartNext { stage: RestartStage::Done, actions, end: RestartEnd::Refused(why) }
}

/// What a restart waits for at first. One that allows for queued work has the
/// session started where none runs; any other one takes it as it finds it.
pub open spec fn first_stage(allow_queued: bool) -> RestartStage {
    if allow_queued {
        RestartStage::Ensuring
    } else {
        RestartStage::Looking
    }
}

/// What follows from an event. An event that is not awaited changes nothing.
pub open spec fn restart_next(s: Restart, event: RestartEvent) -> RestartNext {
    match (s.stage, event) {
        (RestartStage::Ensuring, RestartEvent::SessionEnsured) => RestartNext {
            stage: RestartStage::Looking,
            actions: seq![RestartAction::LookForSession],
            end: RestartEnd::Open,
        },
        (RestartStage::Ensuring, RestartEvent::EnsureFailed(_)) => RestartNext {
            stage: RestartStage::Done,
            actions: Seq::empty(),
            end: RestartEnd::EventError,
        },
        (RestartStage::Looking, RestartEvent::NoSession) => refused(
            Seq::empty(),
            Refusal::NotReady,
        ),
        (RestartStage::Looking, RestartEvent::LookupFailed(_)) => RestartNext {
            stage: RestartStage::Done,
            actions: Seq::empty(),
            end: RestartEnd::EventError,
        },
        (RestartStage::Looking, RestartEvent::ServiceGone) => refused(
            Seq::empty(),
            Refusal::ServiceGone,
        ),
        (RestartStage::Looking, RestartEvent::SessionFound { .. }) => if s.allow_queued {
            RestartNext {
                stage: RestartStage::Holding,
                actions: seq![RestartAction::BeginRestart { allow_queued: true }],
                end: RestartEnd::Open,
            }
        } else {
            RestartNext {
                stage: RestartStage::Reading,
                actions: seq![RestartAction::ReadSnapshot],
                end: RestartEnd::Open,
            }
        },
        (RestartStage::Reading, RestartEvent::Snapshot(snapshot)) => match snapshot {
            MemberRuntimeSnapshot::Ready => RestartNext {
                stage: RestartStage::Holding,
                actions: seq![RestartAction::BeginRestart { allow_queued: false }],
                end: RestartEnd::Open,
            },
            MemberRuntimeSnapshot::Attaching => refused(Seq::empty(), Refusal::Starting),
            MemberRuntimeSnapshot::Removing => refused(Seq::empty(), Refusal::BeingRemoved),
            _ => refused(Seq::empty(), Refusal::NotReady),
        },
        (RestartStage::Holding, RestartEvent::HoldTaken) => RestartNext {
            stage: RestartStage::Reserving,
            actions: seq![RestartAction::ReserveRestart],
            end: RestartEnd::Open,
        },
        (RestartStage::Holding, RestartEvent::HoldRefused(why)) => refused(
            Seq::empty(),
            match why {
                RuntimeRestartRejection::Busy => Refusal::Busy,
                RuntimeRestartRejection::Removing => Refusal::BeingRemoved,
                RuntimeRestartRejection::SessionStopped => Refusal::SessionNotFound,
            },
        ),
        (RestartStage::Reserving, RestartEvent::Reserved(reservation)) => match reservation {
            ReserveAttach::Start => RestartNext {
                stage: RestartStage::Attaching,
                actions: seq![
                    RestartAction::Announce(TeamAgentRuntimeStatus::Pending),
                    RestartAction::Attach,
                ],
                end: RestartEnd::Open,
            },
            ReserveAttach::Join | ReserveAttach::AlreadyReady => refused(
                seq![RestartAction::AbortRestart],
                Refusal::Busy,
            ),
            ReserveAttach::Removing => refused(
                seq![RestartAction::AbortRestart],
                Refusal::BeingRemoved,
            ),
            ReserveAttach::SessionStopped => refused(
                seq![RestartAction::AbortRestart],
                Refusal::SessionNotFound,
            ),
        },
        (RestartStage::Attaching, RestartEvent::Attached(outcome)) => match outcome {
            AttachOutcome::Ready => RestartNext {
                stage: RestartStage::Done,
                actions: Seq::empty(),
                end: RestartEnd::Success,
            },
            AttachOutcome::Failed { public_reason } => refused(
                Seq::empty(),
                Refusal::RuntimeFailed(public_reason@),
            ),
            AttachOutcome::Removed => refused(Seq::empty(), Refusal::AgentNotFound),
            AttachOutcome::SessionStopped => refused(Seq::empty(), Refusal::SessionNotFound),
        },
        _ => RestartNext { stage: s.stage, actions: Seq::empty(), end: RestartEnd::Open },
    }
}

/// The member, once its session was found.
pub open spec fn restart_target(s: Restart, event: RestartEvent) -> MemberTarget {
    match (s.stage, event) {
        (RestartStage::Looking, RestartEvent::SessionFound { conversation_id }) => MemberTarget {
            conversation_id,
            ..s.target
        },
        _ => s.target,
    }
}

/// The error that an event brought.
pub open spec fn restart_event_error(event: RestartEvent) -> Option<TeamError> {
    match event {
        RestartEvent::EnsureFailed(e) => Some(e),
        RestartEvent::LookupFailed(e) => Some(e),
        _ => None,
    }
}

pub open spec fn restart_ends(
    t: MemberTarget,
    event: RestartEvent,
    end: RestartEnd,
    result: Option<Result<(), TeamError>>,
) -> bool {
    match end {
        RestartEnd::EventError => restart_event_error(event) matches Some(e) && result == Some(
            Err::<(), TeamError>(e),
        ),
        RestartEnd::Open => result is None,
        RestartEnd::Success => result == Some(Ok::<(), TeamError>(())),
        RestartEnd::Refused(why) => result matches Some(Err(e)) && answers(e, t, why),
    }
}

impl Restart {
    pub fn new(target: MemberTarget, allow_queued: bool) -> (r: Restart)
        ensures
            r.target == target,
            r.allow_queued == allow_queued,
            r.stage == first_stage(allow_queued),
    {
        let stage = if allow_queued {
            RestartStage::Ensuring
        } else {
            RestartStage::Looking
        };
        Restart { target, allow_queued, stage }
    }

    /// What is to be done first, before anything has happened.
    pub fn first_actions(&self) -> (r: Vec<RestartAction>)
        ensures
            r@ == match self.stage {
                RestartStage::Ensuring => seq![RestartAction::EnsureSession],
                RestartStage::Looking => seq![RestartAction::LookForSession],
                _ => Seq::empty(),
            },
    {
        let mut r: Vec<RestartAction> = Vec::new();
        match self.stage {
            RestartStage::Ensuring => r.push(RestartAction::EnsureSession),
            RestartStage::Looking => r.push(RestartAction::LookForSession),
            _ => {},
        }
        assert(r@ =~= match self.stage {
            RestartStage::Ensuring => seq![RestartAction::EnsureSession],
            RestartStage::Looking => seq![RestartAction::LookForSession],
            _ => Seq::empty(),
        });
        r
    }

    /// Takes in what happened and says what is to be done.
    pub fn step(&mut self, event: RestartEvent) -> (r: RestartStep)
        ensures
            *final(self) == (Restart {
                stage: restart_next(*old(self), event).stage,
                target: restart_target(*old(self), event),
                ..*old(self)
            }),
            r.actions@ == restart_next(*old(self), event).actions,
            restart_ends(old(self).target, event, restart_next(*old(self), event).end, r.result),
    {
        let ghost next = restart_next(*self, event);
        let mut actions: Vec<RestartAction> = Vec::new();
        let mut result: Option<Result<(), TeamError>> = None;
        let mut stage = self.stage;
        match (self.stage, event) {
            (RestartStage::Ensuring, RestartEvent::SessionEnsured) => {
                actions.push(RestartAction::LookForSession);
                stage = RestartStage::Looking;
            },
            (RestartStage::Ensuring, RestartEvent::EnsureFailed(e)) => {
                stage = RestartStage::Done;
                result = Some(Err(e));
            },
            (RestartStage::Looking, RestartEvent::NoSession) => {
                stage = RestartStage::Done;
                result = Some(Err(self.target.not_ready()));
            },
            (RestartStage::Looking, RestartEvent::LookupFailed(e)) => {
                stage = RestartStage::Done;
                result = Some(Err(e));
            },
            (RestartStage::Looking, RestartEvent::ServiceGone) => {
                stage = RestartStage::Done;
                result = Some(Err(self.target.service_gone()));
            },
            (RestartStage::Looking, RestartEvent::SessionFound { conversation_id }) => {
                self.target.conversation_id = conversation_id;
                if self.allow_queued {
                    actions.push(RestartAction::BeginRestart { allow_queued: true });
                    stage = RestartStage::Holding;
                } else {
                    actions.push(RestartAction::ReadSnapshot);
                    stage = RestartStage::Reading;
                }
            },
            (RestartStage::Reading, RestartEvent::Snapshot(snapshot)) => match snapshot {
                MemberRuntimeSnapshot::Ready => {
                    actions.push(RestartAction::BeginRestart { allow_queued: false });
                    stage = RestartStage::Holding;
                },
                MemberRuntimeSnapshot::Attaching => {
                    stage = RestartStage::Done;
                    result = Some(Err(self.target.starting()));
                },
                MemberRuntimeSnapshot::Removing => {
                    stage = RestartStage::Done;
                    result = Some(Err(self.target.being_removed()));
                },
                _ => {
                    stage = RestartStage::Done;
                    result = Some(Err(self.target.not_ready()));
                },
            },
            (RestartStage::Holding, RestartEvent::HoldTaken) => {
                actions.push(RestartAction::ReserveRestart);
                stage = RestartStage::Reserving;
            },
            (RestartStage::Holding, RestartEvent::HoldRefused(why)) => {
                stage = RestartStage::Done;
                result = Some(
                    Err(
                        match why {
                            RuntimeRestartRejection::Busy => self.target.busy(),
                            RuntimeRestartRejection::Removing => self.target.being_removed(),
                            RuntimeRestartRejection::SessionStopped =>
                                self.target.session_not_found(),
                        },
                    ),
                );
            },
            (RestartStage::Reserving, RestartEvent::Reserved(reservation)) => match reservation {
                ReserveAttach::Start => {
                    actions.push(RestartAction::Announce(TeamAgentRuntimeStatus::Pending));
                    actions.push(RestartAction::Attach);
                    stage = RestartStage::Attaching;
                },
                ReserveAttach::Join | ReserveAttach::AlreadyReady => {
                    actions.push(RestartAction::AbortRestart);
                    stage = RestartStage::Done;
                    result = Some(Err(self.target.busy()));
                },
                ReserveAttach::Removing => {
                    actions.push(RestartAction::AbortRestart);
                    stage = RestartStage::Done;
                    result = Some(Err(self.target.being_removed()));
                },
                ReserveAttach::SessionStopped => {
                    actions.push(RestartAction::AbortRestart);
                    stage = RestartStage::Done;
                    result = Some(Err(self.target.session_not_found()));
                },
            },
            (RestartStage::Attaching, RestartEvent::Attached(outcome)) => {
                stage = RestartStage::Done;
                result = Some(
                    match outcome {
                        AttachOutcome::Ready => Ok(()),
                        AttachOutcome::Failed { public_reason } => Err(
                            self.target.runtime_failed(public_reason),
                        ),
                        AttachOutcome::Removed => Err(
                            TeamError::AgentNotFound(self.target.slot_id.clone()),
                        ),
                        AttachOutcome::SessionStopped => Err(self.target.session_not_found()),
                    },
                );
            },
            _ => {},
        }
        self.stage = stage;
        assert(actions@ =~= next.actions);
        RestartStep { actions, result }
    }
}

/// A session is started for a restart exactly where the request allows for
/// queued work; without that a restart never starts one.
pub proof fn law_only_a_restart_with_queued_work_starts_a_session(s: Restart, event: RestartEvent)
    ensures
        !restart_next(s, event).actions.contains(RestartAction::EnsureSession),
        first_stage(s.allow_queued) is Ensuring <==> s.allow_queued,
        !(s.stage is Ensuring) ==> !(restart_next(s, event).stage is Ensuring),
{
    let n = restart_next(s, event);
    if n.actions.contains(RestartAction::EnsureSession) {
        let k = choose|k: int|
            0 <= k < n.actions.len() && n.actions[k] == RestartAction::EnsureSession;
        assert(n.actions[k] == RestartAction::EnsureSession);
    }
}

/// The hold, once held, is given back by the step that refuses the request; a
/// step that refuses without holding it has nothing to give back.
pub proof fn law_refused_restart_gives_the_hold_back(s: Restart, event: RestartEvent)
    requires
        restart_next(s, event).end is Refused,
    ensures
        s.stage is Reserving <==> restart_next(s, event).actions.contains(
            RestartAction::AbortRestart,
        ),
{
    let n = restart_next(s, event);
    if s.stage is Reserving {
        assert(n.actions[0] == RestartAction::AbortRestart);
    }
}

/// The runtime is touched only once it is the caller's: no step starts it but
/// the one that was granted the start.
pub proof fn law_restart_needs_the_grant(s: Restart, event: RestartEvent)
    requires
        restart_next(s, event).actions.contains(RestartAction::Attach),
    ensures
        s.stage is Reserving,
        event == RestartEvent::Reserved(ReserveAttach::Start),
{
    let n = restart_next(s, event);
    let k = choose|k: int| 0 <= k < n.actions.len() && n.actions[k] == RestartAction::Attach;
    assert(n.actions[k] == RestartAction::Attach);
}

/// A restart asks for each thing at one moment and at no other: the hold for a member
/// that is ready or may have queued work, the reservation under the hold, the runtime
/// under the reservation, and to give the hold back where the reservation is refused.
/// A member is shown as pending before it is attached.
pub proof fn law_restart_asks_in_turn(s: Restart, event: RestartEvent)
    ensures
        ({
            let a = restart_next(s, event).actions;
            &&& !a.contains(RestartAction::EnsureSession)
            &&& a.contains(RestartAction::LookForSession) <==> s.stage is Ensuring
                && event is SessionEnsured
            &&& a.contains(RestartAction::ReadSnapshot) <==> s.stage is Looking
                && event is SessionFound && !s.allow_queued
            &&& a.contains(RestartAction::BeginRestart { allow_queued: true }) <==> s.stage
                is Looking && event is SessionFound && s.allow_queued
            &&& a.contains(RestartAction::BeginRestart { allow_queued: false }) <==> s.stage
                is Reading && (event matches RestartEvent::Snapshot(MemberRuntimeSnapshot::Ready))
            &&& a.contains(RestartAction::ReserveRestart) <==> s.stage is Holding
                && event is HoldTaken
            &&& a.contains(RestartAction::AbortRestart) <==> s.stage is Reserving && (
            event matches RestartEvent::Reserved(r) && r != ReserveAttach::Start)
            &&& a.contains(RestartAction::Attach) <==> s.stage is Reserving
                && (event matches RestartEvent::Reserved(ReserveAttach::Start))
            &&& a.contains(RestartAction::Attach) ==> a.len() == 2 && a[0]
                == RestartAction::Announce(TeamAgentRuntimeStatus::Pending)
            &&& !a.contains(RestartAction::Attach) ==> a.len() <= 1 && forall|
                t: TeamAgentRuntimeStatus,
            |
                !(#[trigger] a.contains(RestartAction::Announce(t)))
        }),
{
    let a = restart_next(s, event).actions;
    lemma_few(a);
    match event {
        RestartEvent::Reserved(r) => {
            assert(s.stage is Reserving && r == ReserveAttach::Start ==> a[1]
                == RestartAction::Attach);
        },
        _ => {},
    }
}

/// A restart answers once, and with what happened: success exactly where the runtime
/// came up, and otherwise the error that names the member and says why it did not.
pub proof fn law_restart_answers_what_happened(
    s: Restart,
    event: RestartEvent,
    result: Option<Result<(), TeamError>>,
)
    requires
        restart_ends(s.target, event, restart_next(s, event).end, result),
    ensures
        result == Some(Ok::<(), TeamError>(())) <==> s.stage is Attaching
            && (event matches RestartEvent::Attached(AttachOutcome::Ready)),
        s.stage is Done ==> result is None && restart_next(s, event).stage is Done,
        !(s.stage is Done) ==> (result is Some <==> restart_next(s, event).stage is Done),
        s.stage is Ensuring ==> (event matches RestartEvent::EnsureFailed(e) ==> result == Some(
            Err::<(), TeamError>(e),
        )),
        s.stage is Looking ==> (event matches RestartEvent::LookupFailed(e) ==> result == Some(
            Err::<(), TeamError>(e),
        )),
        s.stage is Looking && event is ServiceGone ==> (result matches Some(
            Err(TeamError::InvalidRequest(x)),
        ) && x@ == "team service is shutting down"@),
        s.stage is Looking && event is NoSession ==> (result matches Some(
            Err(TeamError::RuntimeNotReady { conversation_id }),
        ) && conversation_id@ == s.target.conversation_id@),
        s.stage is Reading ==> (event matches RestartEvent::Snapshot(x) ==> {
            &&& x is Ready <==> result is None
            &&& x is Attaching <==> (result matches Some(Err(e)) && e is MemberRuntimeStarting)
            &&& x is Removing <==> (result matches Some(Err(e)) && e is InvalidRequest)
            &&& x is Attaching ==> (result matches Some(
                Err(TeamError::MemberRuntimeStarting { team_id, slot_id, conversation_id }),
            ) && team_id@ == s.target.team_id@ && slot_id@ == s.target.slot_id@ && conversation_id@
                == s.target.conversation_id@)
            &&& x is Absent || x is Failed || x is SessionStopped ==> (result matches Some(
                Err(TeamError::RuntimeNotReady { conversation_id }),
            ) && conversation_id@ == s.target.conversation_id@)
        }),
        s.stage is Holding || s.stage is Reserving ==> {
            &&& (s.stage is Holding && (event matches RestartEvent::HoldRefused(
                RuntimeRestartRejection::Busy,
            ))) || (s.stage is Reserving && (event matches RestartEvent::Reserved(r) && (r
                == ReserveAttach::Join || r == ReserveAttach::AlreadyReady))) <==> (
            result matches Some(Err(TeamError::MemberBusy { team_id, slot_id, conversation_id }))
                && team_id@ == s.target.team_id@ && slot_id@ == s.target.slot_id@
                && conversation_id@ == s.target.conversation_id@)
            &&& (s.stage is Holding && (event matches RestartEvent::HoldRefused(
                RuntimeRestartRejection::Removing,
            ))) || (s.stage is Reserving && (event matches RestartEvent::Reserved(
                ReserveAttach::Removing,
            ))) <==> (result matches Some(Err(TeamError::InvalidRequest(x))) && x@
                == "team member runtime is being removed: "@ + s.target.slot_id@)
            &&& (s.stage is Holding && (event matches RestartEvent::HoldRefused(
                RuntimeRestartRejection::SessionStopped,
            ))) || (s.stage is Reserving && (event matches RestartEvent::Reserved(
                ReserveAttach::SessionStopped,
            ))) <==> (result matches Some(Err(TeamError::SessionNotFound(x))) && x@
                == s.target.team_id@)
        },
        s.stage is Attaching ==> (event matches RestartEvent::Attached(outcome) ==> {
            &&& outcome is Removed <==> (result matches Some(Err(TeamError::AgentNotFound(x)))
                && x@ == s.target.slot_id@)
            &&& outcome is SessionStopped <==> (result matches Some(
                Err(TeamError::SessionNotFound(x)),
            ) && x@ == s.target.team_id@)
            &&& outcome matches AttachOutcome::Failed { public_reason: reason } ==> (
            result matches Some(
                Err(
                    TeamError::MemberRuntimeFailed {
                        team_id,
                        slot_id,
                        conversation_id,
                        public_reason,
                    },
                ),
            ) && team_id@ == s.target.team_id@ && slot_id@ == s.target.slot_id@ && conversation_id@
                == s.target.conversation_id@ && public_reason@ == reason@)
        }),
{
}

/// Only a session that was found says in which conversation the member runs; the
/// member itself never changes.
pub proof fn law_restart_keeps_its_member(s: Restart, event: RestartEvent)
    ensures
        restart_target(s, event).team_id == s.target.team_id,
        restart_target(s, event).slot_id == s.target.slot_id,
        s.stage is Looking ==> (event matches RestartEvent::SessionFound { conversation_id }
            ==> restart_target(s, event).conversation_id == conversation_id),
        !(s.stage is Looking && event is SessionFound) ==> restart_target(s, event) == s.target,
{
}

} // verus!
