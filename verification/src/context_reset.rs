//! Clearing the context of a member: its runtime is ended, what it would
//! resume from is cleared, and a fresh runtime is started.
use crate::error::{TeamContextResetAvailability, TeamError};
use crate::restart::{answers, MemberTarget, Refusal};
use crate::runtime::{AttachOutcome, ReserveAttach, RuntimeRestartRejection};
use crate::search::lemma_few;
use vstd::prelude::*;

verus! {

/// Whether the context was cleared.
#[derive(Debug, Clone, Copy, PartialEq, Eq, Structural)]
pub enum TeamContextResetStatus {
    Completed,
    NotApplied,
}

/// Whether the member runs again.
#[derive(Debug, Clone, Copy, PartialEq, Eq, Structural)]
pub enum TeamContextResetRuntimeStatus {
    Ready,
    Failed,
}

#[derive(Debug, Clone, Copy, PartialEq, Eq, Structural)]
pub struct TeamContextResetResponse {
    pub reset_status: TeamContextResetStatus,
    pub runtime_status: TeamContextResetRuntimeStatus,
    pub preserved_unread_count: usize,
}

/// How far the reset has come: what is awaited.
#[derive(Debug, Clone, Copy, PartialEq, Eq, Structural)]
pub enum ResetStage {
    /// Whether the member can be reset at all.
    Checking,
    /// The hold that keeps new work away.
    Holding,
    /// The messages that wait; the hold is held.
    Counting,
    /// The runtime; the hold is held.
    Reserving,
    /// The old runtime has ended: what it would resume from.
    Clearing,
    /// The runtime, after clearing failed.
    RecoveringFailed,
    /// The runtime, after there was nothing to clear.
    RecoveringUnapplied,
    /// The role that the fresh runtime has to be told.
    Prompting,
    /// The fresh runtime.
    Attaching,
    Done,
}

#[derive(Debug)]
pub enum ResetEvent {
    /// Whether the member can be reset, and whether its session runs.
    Capability { availability: TeamContextResetAvailability, session_runs: bool },
    CheckFailed(TeamError),
    /// The member can be reset, but the service is going away.
    ServiceGone,
    HoldTaken,
    HoldRefused(RuntimeRestartRejection),
    Unread(usize),
    UnreadFailed(TeamError),
    Reserved(ReserveAttach),
    Cleared(bool),
    ClearFailed(TeamError),
    /// Whether the role could be scheduled.
    RolePrompt(bool),
    Attached(AttachOutcome),
}

#[derive(Debug, Clone, Copy, PartialEq, Eq, Structural)]
pub enum ResetAction {
    BeginRestart,
    CountUnread,
    ReserveRestart,
    /// Give the hold back.
    AbortRestart,
    AnnouncePending,
    /// End the runtime and wait until it has ended.
    Kill,
    ClearAnchor,
    RequireRolePrompt,
    /// Start a runtime where one was ended.
    AttachAfterKill,
    /// Tell the conversation how the reset ended.
    Notice(TeamContextResetRuntimeStatus),
}

/// The reset of one member's context.
#[derive(Debug)]
pub struct ContextReset {
    pub target: MemberTarget,
    pub backend: String,
    pub stage: ResetStage,
    pub unread: usize,
    pub prompted: bool,
    pub clear_error: Option<TeamError>,
}

#[derive(Debug)]
pub struct ResetStep {
    pub actions: Vec<ResetAction>,
    pub result: Option<Result<TeamContextResetResponse, TeamError>>,
}

pub enum ResetEnd {
    Open,
    Success(TeamContextResetResponse),
    Refused(Refusal),
    LeaderNotTargetable,
    Unsupported,
    /// The request ends with the error that the event brought.
    EventError,
    /// The request ends with the error for which clearing failed.
    ClearError,
}

pub struct ResetNext {
    pub stage: ResetStage,
    pub actions: Seq<ResetAction>,
    pub end: ResetEnd,
}

/// The request ends with that answer.
pub open spec fn reset_refused(actions: Seq<ResetAction>, why: Refusal) -> ResetNext {
    ResetNext { stage: ResetStage::Done, actions, end: ResetEnd::Refused(why) }
}

/// The request goes on.
pub open spec fn reset_goes_on(stage: ResetStage, actions: Seq<ResetAction>) -> ResetNext {
    ResetNext { stage, actions, end: ResetEnd::Open }
}

pub open spec fn runtime_status(ready: bool) -> TeamContextResetRuntimeStatus {
    if ready {
        TeamContextResetRuntimeStatus::Ready
    } else {
        TeamContextResetRuntimeStatus::Failed
    }
}

/// What follows from an event. An event that is not awaited changes nothing.
pub open spec fn reset_next(s: ContextReset, event: ResetEvent) -> ResetNext {
    match (s.stage, event) {
        (ResetStage::Checking, ResetEvent::CheckFailed(_)) => ResetNext {
            stage: ResetStage::Done,
            actions: Seq::empty(),
            end: ResetEnd::EventError,
        },
        (ResetStage::Checking, ResetEvent::Capability { availability, session_runs }) =>
            match availability {
            TeamContextResetAvailability::Ready => if session_runs {
                reset_goes_on(ResetStage::Holding, seq![ResetAction::BeginRestart])
            } else {
                reset_refused(
                    Seq::empty(),
                    Refusal::ResetUnavailable(TeamContextResetAvailability::SessionStopped),
                )
            },
            TeamContextResetAvailability::LeaderNotTargetable => ResetNext {
                stage: ResetStage::Done,
                actions: Seq::empty(),
                end: ResetEnd::LeaderNotTargetable,
            },
            TeamContextResetAvailability::Unsupported => ResetNext {
                stage: ResetStage::Done,
                actions: Seq::empty(),
                end: ResetEnd::Unsupported,
            },
            other => reset_refused(Seq::empty(), Refusal::ResetUnavailable(other)),
        },
        (ResetStage::Holding, ResetEvent::ServiceGone) => reset_refused(
            Seq::empty(),
            Refusal::ServiceGone,
        ),
        (ResetStage::Holding, ResetEvent::HoldTaken) => reset_goes_on(
            ResetStage::Counting,
            seq![ResetAction::CountUnread],
        ),
        (ResetStage::Holding, ResetEvent::HoldRefused(why)) => reset_refused(
            Seq::empty(),
            match why {
                RuntimeRestartRejection::Busy => Refusal::Busy,
                RuntimeRestartRejection::Removing => Refusal::ResetUnavailable(
                    TeamContextResetAvailability::Removing,
                ),
                RuntimeRestartRejection::SessionStopped => Refusal::ResetUnavailable(
                    TeamContextResetAvailability::SessionStopped,
                ),
            },
        ),
        (ResetStage::Counting, ResetEvent::Unread(_)) => reset_goes_on(
            ResetStage::Reserving,
            seq![ResetAction::ReserveRestart],
        ),
        (ResetStage::Counting, ResetEvent::UnreadFailed(_)) => ResetNext {
            stage: ResetStage::Done,
            actions: seq![ResetAction::AbortRestart],
            end: ResetEnd::EventError,
        },
        (ResetStage::Reserving, ResetEvent::Reserved(reservation)) => match reservation {
            ReserveAttach::Start => reset_goes_on(
                ResetStage::Clearing,
                seq![ResetAction::AnnouncePending, ResetAction::Kill, ResetAction::ClearAnchor],
            ),
            ReserveAttach::Join | ReserveAttach::AlreadyReady => reset_refused(
                seq![ResetAction::AbortRestart],
                Refusal::Busy,
            ),
            ReserveAttach::Removing => reset_refused(
                seq![ResetAction::AbortRestart],
                Refusal::ResetUnavailable(TeamContextResetAvailability::Removing),
            ),
            ReserveAttach::SessionStopped => reset_refused(
                seq![ResetAction::AbortRestart],
                Refusal::ResetUnavailable(TeamContextResetAvailability::SessionStopped),
            ),
        },
        (ResetStage::Clearing, ResetEvent::ClearFailed(_)) => reset_goes_on(
            ResetStage::RecoveringFailed,
            seq![ResetAction::AttachAfterKill],
        ),
        (ResetStage::Clearing, ResetEvent::Cleared(cleared)) => if cleared {
            reset_goes_on(ResetStage::Prompting, seq![ResetAction::RequireRolePrompt])
        } else {
            reset_goes_on(ResetStage::RecoveringUnapplied, seq![ResetAction::AttachAfterKill])
        },
        (ResetStage::RecoveringFailed, ResetEvent::Attached(_)) => ResetNext {
            stage: ResetStage::Done,
            actions: Seq::empty(),
            end: ResetEnd::ClearError,
        },
        (ResetStage::RecoveringUnapplied, ResetEvent::Attached(outcome)) => ResetNext {
            stage: ResetStage::Done,
            actions: Seq::empty(),
            end: ResetEnd::Success(
                TeamContextResetResponse {
                    reset_status: TeamContextResetStatus::NotApplied,
                    runtime_status: runtime_status(outcome is Ready),
                    preserved_unread_count: s.unread,
                },
            ),
        },
        (ResetStage::Prompting, ResetEvent::RolePrompt(_)) => reset_goes_on(
            ResetStage::Attaching,
            seq![ResetAction::AttachAfterKill],
        ),
        (ResetStage::Attaching, ResetEvent::Attached(outcome)) => {
            let status = runtime_status(s.prompted && outcome is Ready);
            ResetNext {
                stage: ResetStage::Done,
                actions: seq![ResetAction::Notice(status)],
                end: ResetEnd::Success(
                    TeamContextResetResponse {
                        reset_status: TeamContextResetStatus::Completed,
                        runtime_status: status,
                        preserved_unread_count: s.unread,
                    },
                ),
            }
        },
        _ => reset_goes_on(s.stage, Seq::empty()),
    }
}

/// The result says how the request ended.
pub open spec fn reset_ends(
    s: ContextReset,
    event: ResetEvent,
    end: ResetEnd,
    result: Option<Result<TeamContextResetResponse, TeamError>>,
) -> bool {
    match end {
        ResetEnd::Open => result is None,
        ResetEnd::Success(response) => result == Some(
            Ok::<TeamContextResetResponse, TeamError>(response),
        ),
        ResetEnd::Refused(why) => result matches Some(Err(e)) && answers(e, s.target, why),
        ResetEnd::LeaderNotTargetable => result matches Some(
            Err(TeamError::ContextResetLeaderNotTargetable { team_id, slot_id, conversation_id }),
        ) && team_id@ == s.target.team_id@ && slot_id@ == s.target.slot_id@ && conversation_id@
            == s.target.conversation_id@,
        ResetEnd::Unsupported => result matches Some(
            Err(TeamError::MemberUnsupported { team_id, slot_id, conversation_id, backend }),
        ) && team_id@ == s.target.team_id@ && slot_id@ == s.target.slot_id@ && conversation_id@
            == s.target.conversation_id@ && backend@ == s.backend@,
        ResetEnd::EventError => match event {
            ResetEvent::CheckFailed(e) => result == Some(
                Err::<TeamContextResetResponse, TeamError>(e),
            ),
            ResetEvent::UnreadFailed(e) => result == Some(
                Err::<TeamContextResetResponse, TeamError>(e),
            ),
            _ => false,
        },
        ResetEnd::ClearError => s.clear_error matches Some(e) && result == Some(
            Err::<TeamContextResetResponse, TeamError>(e),
        ),
    }
}

/// While the runtime recovers from a failed clearing, the error is kept.
pub open spec fn reset_wf(s: ContextReset) -> bool {
    s.stage is RecoveringFailed ==> s.clear_error is Some
}

/// What a reset knows after an event.
pub open spec fn remembers(s: ContextReset, event: ResetEvent, t: ContextReset) -> bool {
    &&& t.target == s.target
    &&& t.backend == s.backend
    &&& t.stage == reset_next(s, event).stage
    &&& t.unread == match (s.stage, event) {
        (ResetStage::Counting, ResetEvent::Unread(n)) => n,
        _ => s.unread,
    }
    &&& t.prompted == match (s.stage, event) {
        (ResetStage::Prompting, ResetEvent::RolePrompt(ok)) => ok,
        _ => s.prompted,
    }
    &&& t.clear_error == match (s.stage, event) {
        (ResetStage::Clearing, ResetEvent::ClearFailed(e)) => Some(e),
        (ResetStage::RecoveringFailed, ResetEvent::Attached(_)) => None,
        _ => s.clear_error,
    }
}

impl ContextReset {
    pub fn new(target: MemberTarget, backend: &str) -> (r: ContextReset)
        ensures
            r.target == target,
            r.backend@ == backend@,
            r.stage is Checking,
            reset_wf(r),
    {
        ContextReset {
            target,
            backend: backend.to_owned(),
            stage: ResetStage::Checking,
            unread: 0,
            prompted: false,
            clear_error: None,
        }
    }

    fn unavailable(&self, availability: TeamContextResetAvailability) -> (r: TeamError)
        ensures
            match availability {
                TeamContextResetAvailability::LeaderNotTargetable => reset_ends(
                    *self,
                    ResetEvent::HoldTaken,
                    ResetEnd::LeaderNotTargetable,
                    Some(Err(r)),
                ),
                TeamContextResetAvailability::Unsupported => reset_ends(
                    *self,
                    ResetEvent::HoldTaken,
                    ResetEnd::Unsupported,
                    Some(Err(r)),
                ),
                other => answers(r, self.target, Refusal::ResetUnavailable(other)),
            },
    {
        match availability {
            TeamContextResetAvailability::LeaderNotTargetable => {
                TeamError::ContextResetLeaderNotTargetable {
                    team_id: self.target.team_id.clone(),
                    slot_id: self.target.slot_id.clone(),
                    conversation_id: self.target.conversation_id.clone(),
                }
            },
            TeamContextResetAvailability::Unsupported => {
                TeamError::MemberUnsupported {
                    team_id: self.target.team_id.clone(),
                    slot_id: self.target.slot_id.clone(),
                    conversation_id: self.target.conversation_id.clone(),
                    backend: self.backend.clone(),
                }
            },
            other => self.target.reset_unavailable(other),
        }
    }

    /// Takes in what happened and says what is to be done.
    #[verifier::rlimit(40)]
    pub fn step(&mut self, event: ResetEvent) -> (r: ResetStep)
        requires
            reset_wf(*old(self)),
        ensures
            reset_wf(*final(self)),
            final(self).target == old(self).target,
            final(self).backend == old(self).backend,
            final(self).stage == reset_next(*old(self), event).stage,
            final(self).unread == match (old(self).stage, event) {
                (ResetStage::Counting, ResetEvent::Unread(n)) => n,
                _ => old(self).unread,
            },
            final(self).prompted == match (old(self).stage, event) {
                (ResetStage::Prompting, ResetEvent::RolePrompt(ok)) => ok,
                _ => old(self).prompted,
            },
            final(self).clear_error == match (old(self).stage, event) {
                (ResetStage::Clearing, ResetEvent::ClearFailed(e)) => Some(e),
                (ResetStage::RecoveringFailed, ResetEvent::Attached(_)) => None,
                _ => old(self).clear_error,
            },
            r.actions@ == reset_next(*old(self), event).actions,
            reset_ends(*old(self), event, reset_next(*old(self), event).end, r.result),
            remembers(*old(self), event, *final(self)),
    {
        let ghost next = reset_next(*self, event);
        let mut actions: Vec<ResetAction> = Vec::new();
        let mut result: Option<Result<TeamContextResetResponse, TeamError>> = None;
        match (self.stage, event) {
            (ResetStage::Checking, ResetEvent::CheckFailed(e)) => {
                self.stage = ResetStage::Done;
                result = Some(Err(e));
            },
            (ResetStage::Checking, ResetEvent::Capability { availability, session_runs }) => {
                match availability {
                    TeamContextResetAvailability::Ready => {
                        if session_runs {
                            actions.push(ResetAction::BeginRestart);
                            self.stage = ResetStage::Holding;
                        } else {
                            self.stage = ResetStage::Done;
                            result = Some(
                                Err(
                                    self.target.reset_unavailable(
                                        TeamContextResetAvailability::SessionStopped,
                                    ),
                                ),
                            );
                        }
                    },
                    other => {
                        let error = self.unavailable(other);
                        self.stage = ResetStage::Done;
                        result = Some(Err(error));
                    },
                }
            },
            (ResetStage::Holding, ResetEvent::ServiceGone) => {
                self.stage = ResetStage::Done;
                result = Some(Err(self.target.service_gone()));
            },
            (ResetStage::Holding, ResetEvent::HoldTaken) => {
                actions.push(ResetAction::CountUnread);
                self.stage = ResetStage::Counting;
            },
            (ResetStage::Holding, ResetEvent::HoldRefused(why)) => {
                self.stage = ResetStage::Done;
                result = Some(
                    Err(
                        match why {
                            RuntimeRestartRejection::Busy => self.target.busy(),
                            RuntimeRestartRejection::Removing => self.target.reset_unavailable(
                                TeamContextResetAvailability::Removing,
                            ),
                            RuntimeRestartRejection::SessionStopped =>
                                self.target.reset_unavailable(
                                TeamContextResetAvailability::SessionStopped,
                            ),
                        },
                    ),
                );
            },
            (ResetStage::Counting, ResetEvent::Unread(n)) => {
                actions.push(ResetAction::ReserveRestart);
                self.unread = n;
                self.stage = ResetStage::Reserving;
            },
            (ResetStage::Counting, ResetEvent::UnreadFailed(e)) => {
                actions.push(ResetAction::AbortRestart);
                self.stage = ResetStage::Done;
                result = Some(Err(e));
            },
            (ResetStage::Reserving, ResetEvent::Reserved(reservation)) => {
                match reservation {
                    ReserveAttach::Start => {
                        actions.push(ResetAction::AnnouncePending);
                        actions.push(ResetAction::Kill);
                        actions.push(ResetAction::ClearAnchor);
                        self.stage = ResetStage::Clearing;
                    },
                    other => {
                        actions.push(ResetAction::AbortRestart);
                        self.stage = ResetStage::Done;
                        result = Some(
                            Err(
                                match other {
                                    ReserveAttach::Removing => self.target.reset_unavailable(
                                        TeamContextResetAvailability::Removing,
                                    ),
                                    ReserveAttach::SessionStopped => self.target.reset_unavailable(
                                        TeamContextResetAvailability::SessionStopped,
                                    ),
                                    _ => self.target.busy(),
                                },
                            ),
                        );
                    },
                }
            },
            (ResetStage::Clearing, ResetEvent::ClearFailed(e)) => {
                actions.push(ResetAction::AttachAfterKill);
                self.clear_error = Some(e);
                self.stage = ResetStage::RecoveringFailed;
            },
            (ResetStage::Clearing, ResetEvent::Cleared(cleared)) => {
                if cleared {
                    actions.push(ResetAction::RequireRolePrompt);
                    self.stage = ResetStage::Prompting;
                } else {
                    actions.push(ResetAction::AttachAfterKill);
                    self.stage = ResetStage::RecoveringUnapplied;
                }
            },
            (ResetStage::RecoveringFailed, ResetEvent::Attached(_)) => {
                self.stage = ResetStage::Done;
                let kept = self.clear_error.take();
                if let Some(e) = kept {
                    result = Some(Err(e));
                }
            },
            (ResetStage::RecoveringUnapplied, ResetEvent::Attached(outcome)) => {
                self.stage = ResetStage::Done;
                result = Some(
                    Ok(
                        TeamContextResetResponse {
                            reset_status: TeamContextResetStatus::NotApplied,
                            runtime_status: status_of_runtime(is_ready(&outcome)),
                            preserved_unread_count: self.unread,
                        },
                    ),
                );
            },
            (ResetStage::Prompting, ResetEvent::RolePrompt(ok)) => {
                actions.push(ResetAction::AttachAfterKill);
                self.prompted = ok;
                self.stage = ResetStage::Attaching;
            },
            (ResetStage::Attaching, ResetEvent::Attached(outcome)) => {
                let status = status_of_runtime(self.prompted && is_ready(&outcome));
                actions.push(ResetAction::Notice(status));
                self.stage = ResetStage::Done;
                result = Some(
                    Ok(
                        TeamContextResetResponse {
                            reset_status: TeamContextResetStatus::Completed,
                            runtime_status: status,
                            preserved_unread_count: self.unread,
                        },
                    ),
                );
            },
            _ => {},
        }
        assert(actions@ =~= next.actions);
        ResetStep { actions, result }
    }
}

fn is_ready(outcome: &AttachOutcome) -> (r: bool)
    ensures
        r == (outcome is Ready),
{
    match outcome {
        AttachOutcome::Ready => true,
        _ => false,
    }
}

fn status_of_runtime(ready: bool) -> (r: TeamContextResetRuntimeStatus)
    ensures
        r == runtime_status(ready),
{
    if ready {
        TeamContextResetRuntimeStatus::Ready
    } else {
        TeamContextResetRuntimeStatus::Failed
    }
}

/// The hold is held.
pub open spec fn hold_taken(stage: ResetStage) -> bool {
    stage is Counting || stage is Reserving
}

/// The old runtime has ended and no fresh one was asked for yet.
pub open spec fn owes_runtime(stage: ResetStage) -> bool {
    stage is Clearing || stage is Prompting
}

/// The runtime is ended by no step but the one that was granted the start; a
/// request that is refused has ended nothing, and has given back the hold if it
/// held it.
pub proof fn law_refused_reset_touches_nothing(s: ContextReset, event: ResetEvent)
    ensures
        reset_next(s, event).actions.contains(ResetAction::Kill) ==> s.stage is Reserving && event
            == ResetEvent::Reserved(ReserveAttach::Start),
        ({
            let end = reset_next(s, event).end;
            end is Refused || end is LeaderNotTargetable || end is Unsupported || end is EventError
        }) ==> !reset_next(s, event).actions.contains(ResetAction::Kill) && (hold_taken(s.stage)
            <==> reset_next(s, event).actions.contains(ResetAction::AbortRestart)),
{
    let n = reset_next(s, event);
    if n.actions.contains(ResetAction::Kill) {
        let k = choose|k: int| 0 <= k < n.actions.len() && n.actions[k] == ResetAction::Kill;
        assert(n.actions[k] == ResetAction::Kill);
    }
    if hold_taken(s.stage) && !(n.end is Open) {
        assert(n.actions[0] == ResetAction::AbortRestart);
    }
}

/// A member whose runtime was ended gets another one, whatever happens on the
/// way: the request cannot end while it owes the runtime, and it stops owing
/// it only by asking for one.
pub proof fn law_ended_runtime_is_started_again(s: ContextReset, event: ResetEvent)
    requires
        owes_runtime(s.stage),
    ensures
        reset_next(s, event).end is Open,
        owes_runtime(reset_next(s, event).stage) || reset_next(s, event).actions.contains(
            ResetAction::AttachAfterKill,
        ),
{
    let n = reset_next(s, event);
    if !owes_runtime(n.stage) {
        assert(n.actions[0] == ResetAction::AttachAfterKill);
    }
}

/// A reset asks for each thing at one moment and at no other. The runtime ends, and
/// what it would resume from is cleared, only under a reservation and in that order;
/// the role prompt is asked for again only where that was cleared.
pub proof fn law_reset_asks_in_turn(s: ContextReset, event: ResetEvent)
    ensures
        ({
            let a = reset_next(s, event).actions;
            &&& a.contains(ResetAction::BeginRestart) <==> s.stage is Checking && (
            event matches ResetEvent::Capability {
                availability: TeamContextResetAvailability::Ready,
                session_runs: true,
            })
            &&& a.contains(ResetAction::CountUnread) <==> s.stage is Holding && event is HoldTaken
            &&& a.contains(ResetAction::ReserveRestart) <==> s.stage is Counting && event is Unread
            &&& a.contains(ResetAction::AbortRestart) <==> (s.stage is Counting
                && event is UnreadFailed) || (s.stage is Reserving && (
            event matches ResetEvent::Reserved(r) && r != ReserveAttach::Start))
            &&& a.contains(ResetAction::Kill) <==> s.stage is Reserving
                && (event matches ResetEvent::Reserved(ReserveAttach::Start))
            &&& a.contains(ResetAction::ClearAnchor) <==> a.contains(ResetAction::Kill)
            &&& a.contains(ResetAction::AnnouncePending) <==> a.contains(ResetAction::Kill)
            &&& a.contains(ResetAction::Kill) ==> a.len() == 3 && a[0]
                == ResetAction::AnnouncePending && a[1] == ResetAction::Kill
            &&& a.contains(ResetAction::RequireRolePrompt) <==> s.stage is Clearing
                && (event matches ResetEvent::Cleared(true))
            &&& a.contains(ResetAction::AttachAfterKill) <==> (s.stage is Clearing && (
            event is ClearFailed || (event matches ResetEvent::Cleared(false)))) || (s.stage
                is Prompting && event is RolePrompt)
            &&& a.contains(ResetAction::Notice(TeamContextResetRuntimeStatus::Ready)) <==> s.stage
                is Attaching && s.prompted && (event matches ResetEvent::Attached(
                AttachOutcome::Ready,
            ))
            &&& a.contains(ResetAction::Notice(TeamContextResetRuntimeStatus::Failed)) <==> s.stage
                is Attaching && (event matches ResetEvent::Attached(outcome) && !(s.prompted
                && outcome is Ready))
            &&& !a.contains(ResetAction::Kill) ==> a.len() <= 1
        }),
{
    let a = reset_next(s, event).actions;
    lemma_few(a);
}

/// A reset answers once, and with what happened. It succeeds where a runtime was
/// started again after one ended, and says whether what it would resume from was
/// cleared, whether the runtime came up, and how much was unread. A failure to clear
/// comes out only then.
pub proof fn law_reset_answers_what_happened(
    s: ContextReset,
    event: ResetEvent,
    result: Option<Result<TeamContextResetResponse, TeamError>>,
)
    requires
        reset_ends(s, event, reset_next(s, event).end, result),
    ensures
        s.stage is Done ==> result is None && reset_next(s, event).stage is Done,
        !(s.stage is Done) ==> (result is Some <==> reset_next(s, event).stage is Done),
        (result matches Some(Ok(_))) <==> (s.stage is Attaching || s.stage is RecoveringUnapplied)
            && event is Attached,
        result matches Some(Ok(x)) ==> {
            &&& x.reset_status == TeamContextResetStatus::Completed <==> s.stage is Attaching
            &&& x.reset_status == TeamContextResetStatus::NotApplied <==> s.stage
                is RecoveringUnapplied
            &&& x.runtime_status == TeamContextResetRuntimeStatus::Ready <==> (
            event matches ResetEvent::Attached(AttachOutcome::Ready)) && (s.stage is Attaching
                ==> s.prompted)
            &&& x.preserved_unread_count == s.unread
        },
        s.stage is RecoveringFailed && event is Attached ==> s.clear_error is Some && result
            == Some(Err::<TeamContextResetResponse, TeamError>(s.clear_error->0)),
        s.stage is Checking ==> (event matches ResetEvent::CheckFailed(e) ==> result == Some(
            Err::<TeamContextResetResponse, TeamError>(e),
        )),
        s.stage is Counting ==> (event matches ResetEvent::UnreadFailed(e) ==> result == Some(
            Err::<TeamContextResetResponse, TeamError>(e),
        )),
        s.stage is Holding && event is ServiceGone ==> (result matches Some(
            Err(TeamError::InvalidRequest(x)),
        ) && x@ == "team service is shutting down"@),
        s.stage is Checking ==> (event matches ResetEvent::Capability { availability, session_runs }
            ==> {
            &&& result is None <==> availability == TeamContextResetAvailability::Ready
                && session_runs
            &&& availability == TeamContextResetAvailability::LeaderNotTargetable <==> (
            result matches Some(
                Err(
                    TeamError::ContextResetLeaderNotTargetable {
                        team_id,
                        slot_id,
                        conversation_id,
                    },
                ),
            ) && team_id@ == s.target.team_id@ && slot_id@ == s.target.slot_id@ && conversation_id@
                == s.target.conversation_id@)
            &&& availability == TeamContextResetAvailability::Unsupported <==> (result matches Some(
                Err(TeamError::MemberUnsupported { team_id, slot_id, conversation_id, backend }),
            ) && team_id@ == s.target.team_id@ && slot_id@ == s.target.slot_id@ && conversation_id@
                == s.target.conversation_id@ && backend@ == s.backend@)
        }),
        result matches Some(Err(TeamError::ContextResetUnavailable {
            team_id,
            slot_id,
            conversation_id,
            availability,
        })) ==> !(s.stage is RecoveringFailed) && !(event is CheckFailed) && !(
        event is UnreadFailed) ==> {
            &&& team_id@ == s.target.team_id@
            &&& slot_id@ == s.target.slot_id@
            &&& conversation_id@ == s.target.conversation_id@
            &&& s.stage is Holding || s.stage is Reserving ==> availability
                == TeamContextResetAvailability::Removing || availability
                == TeamContextResetAvailability::SessionStopped
        },
        s.stage is Holding ==> (event matches ResetEvent::HoldRefused(why) ==> {
            &&& why == RuntimeRestartRejection::Busy <==> (result matches Some(
                Err(TeamError::MemberBusy { team_id, slot_id, conversation_id }),
            ) && team_id@ == s.target.team_id@ && slot_id@ == s.target.slot_id@ && conversation_id@
                == s.target.conversation_id@)
            &&& why == RuntimeRestartRejection::Removing <==> (result matches Some(
                Err(TeamError::ContextResetUnavailable { availability, .. }),
            ) && availability == TeamContextResetAvailability::Removing)
            &&& why == RuntimeRestartRejection::SessionStopped <==> (result matches Some(
                Err(TeamError::ContextResetUnavailable { availability, .. }),
            ) && availability == TeamContextResetAvailability::SessionStopped)
        }),
        s.stage is Reserving ==> (event matches ResetEvent::Reserved(r) ==> {
            &&& r == ReserveAttach::Start <==> result is None
            &&& r == ReserveAttach::Join || r == ReserveAttach::AlreadyReady <==> (
            result matches Some(Err(TeamError::MemberBusy { team_id, slot_id, conversation_id }))
                && team_id@ == s.target.team_id@ && slot_id@ == s.target.slot_id@
                && conversation_id@ == s.target.conversation_id@)
            &&& r == ReserveAttach::Removing <==> (result matches Some(
                Err(TeamError::ContextResetUnavailable { availability, .. }),
            ) && availability == TeamContextResetAvailability::Removing)
            &&& r == ReserveAttach::SessionStopped <==> (result matches Some(
                Err(TeamError::ContextResetUnavailable { availability, .. }),
            ) && availability == TeamContextResetAvailability::SessionStopped)
        }),
{
}

/// A reset keeps what it learned until it answers: how much was unread, whether the
/// role prompt was asked for again, and why clearing failed; and it is about the same
/// member throughout.
pub proof fn law_reset_keeps_what_it_learned(s: ContextReset, event: ResetEvent, t: ContextReset)
    requires
        remembers(s, event, t),
    ensures
        t.target == s.target,
        t.backend == s.backend,
        s.stage is Counting ==> (event matches ResetEvent::Unread(n) ==> t.unread == n && t.stage
            is Reserving),
        !(s.stage is Counting) ==> t.unread == s.unread,
        s.stage is Prompting ==> (event matches ResetEvent::RolePrompt(ok) ==> t.prompted == ok
            && t.stage is Attaching),
        !(s.stage is Prompting) ==> t.prompted == s.prompted,
        s.stage is Clearing ==> (event matches ResetEvent::ClearFailed(e) ==> t.clear_error == Some(
            e,
        ) && t.stage is RecoveringFailed),
        !(s.stage is Clearing || s.stage is RecoveringFailed) ==> t.clear_error == s.clear_error,
        s.stage is Clearing ==> (event matches ResetEvent::Cleared(cleared) ==> (t.stage
            is Prompting <==> cleared) && (t.stage is RecoveringUnapplied <==> !cleared)),
{
}

} // verus!
