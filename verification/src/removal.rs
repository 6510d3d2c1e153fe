//! Removing a member from a team: its runtime ends first, then it leaves the
//! roster, and only then its conversation goes.
use crate::error::TeamError;
use crate::roster::{
    lemma_stands_for, member_list, resolve_runtime_agent, resolved, stands_for, template_slot_key,
    template_slot_of, without_slot, EngagementMember, MemberKey, TeamAgent,
};
use crate::runtime::{AttachOutcome, BeginRemove};
use crate::scheduler::TeammateRole;
use crate::service::not_found;
use crate::sessions::TeamSessionService;
use crate::teams::{load_owned_team, owned, Team};
use crate::search::lemma_few;
use vstd::prelude::*;

verus! {

/// How far a removal has come: what is awaited.
#[derive(Debug, Clone, Copy, PartialEq, Eq, Structural)]
pub enum RemovalStage {
    /// The registry of the running session, if there is one.
    Beginning,
    /// Somebody else's removal of the same member.
    Joining,
    /// The end of the runtime.
    Killing,
    /// The team, read anew.
    Reloading,
    /// The roster without the member.
    Persisting,
    /// The session that runs now.
    Finding,
    /// The registry of a session that replaced the first one.
    BeginningAgain,
    /// Somebody else's removal in that session.
    JoiningAgain,
    /// The end of the runtime in the session that runs now.
    KillingAgain,
    /// The scheduler of that session.
    Unscheduling,
    /// The end of the conversation.
    Deleting,
    /// Whether that session still runs.
    Checking,
    /// The message to the lead.
    Notifying,
    Done,
}

#[derive(Debug)]
pub enum RemovalEvent {
    NoSession,
    /// What the registry of the session with that generation answered.
    Begun { generation: u64, answer: BeginRemove },
    Joined(AttachOutcome),
    Killed,
    Reloaded { agents: Vec<TeamAgent> },
    ReloadFailed(TeamError),
    Persisted,
    PersistFailed(TeamError),
    /// The generation of the session that runs now, if one does.
    SessionNow(Option<u64>),
    Unscheduled,
    /// The member could not be unscheduled. Where it was not scheduled, the
    /// removal goes on.
    UnscheduleFailed(TeamError),
    /// The conversation is gone, or could not be deleted.
    Deleted,
    StillRunning(bool),
    Notified,
    NotifyFailed(TeamError),
}

#[derive(Debug, Clone, Copy, PartialEq, Eq, Structural)]
pub enum RemovalAction {
    /// Wait for somebody else's removal.
    Wait,
    StopEventLoop,
    /// End the runtime and wait until it has ended.
    Kill,
    ReloadTeam,
    /// Store the roster that comes with the step.
    Persist,
    /// Note in the registry that the member has to be started again.
    RestoreRuntime,
    RefreshStatus,
    FindSession,
    BeginRemove,
    Unschedule,
    FinishRemove,
    DeleteConversation,
    CheckSession,
    NotifyLead,
    AnnounceRemoved,
}

/// The removal of one member.
#[derive(Debug)]
pub struct Removal {
    pub team_id: String,
    pub slot_id: String,
    pub removed: TeamAgent,
    pub template_slot: String,
    pub stage: RemovalStage,
    /// The generation of the session that ran at the beginning.
    pub first_session: Option<u64>,
    /// The removal in the registry is the caller's to finish.
    pub lease: bool,
    /// A session runs after the roster was stored.
    pub active: bool,
}

#[derive(Debug)]
pub struct RemovalStep {
    pub actions: Vec<RemovalAction>,
    /// The roster to store.
    pub roster: Option<Vec<TeamAgent>>,
    pub result: Option<Result<(), TeamError>>,
}

pub enum RemovalEnd {
    Open,
    Success,
    EventError,
    SessionNotFound,
    RuntimeFailed,
}

pub struct RemovalNext {
    pub stage: RemovalStage,
    pub first_session: Option<u64>,
    pub lease: bool,
    pub active: bool,
    pub actions: Seq<RemovalAction>,
    pub end: RemovalEnd,
}

/// The removal goes on with those actions.
pub open spec fn removal_goes_on(
    s: Removal,
    stage: RemovalStage,
    actions: Seq<RemovalAction>,
) -> RemovalNext {
    RemovalNext {
        stage,
        first_session: s.first_session,
        lease: s.lease,
        active: s.active,
        actions,
        end: RemovalEnd::Open,
    }
}

/// The removal ends.
pub open spec fn removal_ends(
    s: Removal,
    actions: Seq<RemovalAction>,
    end: RemovalEnd,
) -> RemovalNext {
    RemovalNext {
        stage: RemovalStage::Done,
        first_session: s.first_session,
        lease: s.lease,
        active: s.active,
        actions,
        end,
    }
}

/// The runtime ends in the session that runs now.
pub open spec fn kills_again(s: Removal, lease: bool) -> RemovalNext {
    RemovalNext {
        stage: RemovalStage::KillingAgain,
        first_session: s.first_session,
        lease,
        active: true,
        actions: seq![RemovalAction::StopEventLoop, RemovalAction::Kill],
        end: RemovalEnd::Open,
    }
}

/// The member is no longer scheduled; what is left is its conversation.
pub open spec fn after_unscheduling(s: Removal) -> RemovalNext {
    removal_goes_on(
        s,
        RemovalStage::Deleting,
        if s.lease {
            seq![RemovalAction::FinishRemove, RemovalAction::DeleteConversation]
        } else {
            seq![RemovalAction::DeleteConversation]
        },
    )
}

/// What follows from an event. An event that is not awaited changes nothing.
pub open spec fn removal_next(s: Removal, event: RemovalEvent) -> RemovalNext {
    match (s.stage, event) {
        (RemovalStage::Beginning, RemovalEvent::NoSession) => RemovalNext {
            first_session: None,
            lease: false,
            ..removal_goes_on(s, RemovalStage::Killing, seq![RemovalAction::Kill])
        },
        (RemovalStage::Beginning, RemovalEvent::Begun { generation, answer }) => match answer {
            BeginRemove::Join => RemovalNext {
                first_session: Some(generation),
                lease: false,
                ..removal_goes_on(s, RemovalStage::Joining, seq![RemovalAction::Wait])
            },
            _ => RemovalNext {
                first_session: Some(generation),
                lease: answer == BeginRemove::Start,
                ..removal_goes_on(
                    s,
                    RemovalStage::Killing,
                    seq![RemovalAction::StopEventLoop, RemovalAction::Kill],
                )
            },
        },
        (RemovalStage::Joining, RemovalEvent::Joined(outcome)) => removal_ends(
            s,
            Seq::empty(),
            match outcome {
                AttachOutcome::Removed => RemovalEnd::Success,
                AttachOutcome::Failed { .. } => RemovalEnd::RuntimeFailed,
                _ => RemovalEnd::SessionNotFound,
            },
        ),
        (RemovalStage::Killing, RemovalEvent::Killed) => removal_goes_on(
            s,
            RemovalStage::Reloading,
            seq![RemovalAction::ReloadTeam],
        ),
        (RemovalStage::Reloading, RemovalEvent::ReloadFailed(_)) => removal_ends(
            s,
            Seq::empty(),
            RemovalEnd::EventError,
        ),
        (RemovalStage::Reloading, RemovalEvent::Reloaded { .. }) => removal_goes_on(
            s,
            RemovalStage::Persisting,
            seq![RemovalAction::Persist],
        ),
        (RemovalStage::Persisting, RemovalEvent::PersistFailed(_)) => removal_ends(
            s,
            if s.first_session is Some && s.lease {
                seq![RemovalAction::RestoreRuntime, RemovalAction::RefreshStatus]
            } else {
                Seq::empty()
            },
            RemovalEnd::EventError,
        ),
        (RemovalStage::Persisting, RemovalEvent::Persisted) => removal_goes_on(
            s,
            RemovalStage::Finding,
            seq![RemovalAction::FindSession],
        ),
        (RemovalStage::Finding, RemovalEvent::SessionNow(now)) => if now is None {
            RemovalNext {
                active: false,
                ..removal_goes_on(
                    s,
                    RemovalStage::Deleting,
                    seq![RemovalAction::DeleteConversation],
                )
            }
        } else if now == s.first_session {
            kills_again(s, s.lease)
        } else {
            removal_goes_on(s, RemovalStage::BeginningAgain, seq![RemovalAction::BeginRemove])
        },
        (RemovalStage::BeginningAgain, RemovalEvent::Begun { answer, .. }) => match answer {
            BeginRemove::Join => removal_goes_on(
                s,
                RemovalStage::JoiningAgain,
                seq![RemovalAction::Wait],
            ),
            _ => kills_again(s, answer == BeginRemove::Start),
        },
        (RemovalStage::JoiningAgain, RemovalEvent::Joined(_)) => kills_again(s, false),
        (RemovalStage::KillingAgain, RemovalEvent::Killed) => removal_goes_on(
            s,
            RemovalStage::Unscheduling,
            seq![RemovalAction::Unschedule],
        ),
        (RemovalStage::Unscheduling, RemovalEvent::Unscheduled) => after_unscheduling(s),
        (RemovalStage::Unscheduling, RemovalEvent::UnscheduleFailed(e)) => match e {
            TeamError::AgentNotFound(_) => after_unscheduling(s),
            _ => removal_ends(s, Seq::empty(), RemovalEnd::EventError),
        },
        (RemovalStage::Deleting, RemovalEvent::Deleted) => if s.active {
            removal_goes_on(s, RemovalStage::Checking, seq![RemovalAction::CheckSession])
        } else {
            removal_ends(s, seq![RemovalAction::AnnounceRemoved], RemovalEnd::Success)
        },
        (RemovalStage::Checking, RemovalEvent::StillRunning(runs)) => if runs {
            removal_goes_on(s, RemovalStage::Notifying, seq![RemovalAction::NotifyLead])
        } else {
            removal_ends(s, seq![RemovalAction::AnnounceRemoved], RemovalEnd::Success)
        },
        (RemovalStage::Notifying, RemovalEvent::NotifyFailed(_)) => removal_ends(
            s,
            Seq::empty(),
            RemovalEnd::EventError,
        ),
        (RemovalStage::Notifying, RemovalEvent::Notified) => removal_ends(
            s,
            seq![RemovalAction::RefreshStatus],
            RemovalEnd::Success,
        ),
        _ => removal_goes_on(s, s.stage, Seq::empty()),
    }
}

/// The error that an event brought.
pub open spec fn removal_event_error(event: RemovalEvent) -> Option<TeamError> {
    match event {
        RemovalEvent::ReloadFailed(e) => Some(e),
        RemovalEvent::PersistFailed(e) => Some(e),
        RemovalEvent::UnscheduleFailed(e) => Some(e),
        RemovalEvent::NotifyFailed(e) => Some(e),
        _ => None,
    }
}

/// The result says how the removal ended.
pub open spec fn removal_result(
    s: Removal,
    event: RemovalEvent,
    end: RemovalEnd,
    result: Option<Result<(), TeamError>>,
) -> bool {
    match end {
        RemovalEnd::Open => result is None,
        RemovalEnd::Success => result == Some(Ok::<(), TeamError>(())),
        RemovalEnd::EventError => removal_event_error(event) matches Some(e) && result == Some(
            Err::<(), TeamError>(e),
        ),
        RemovalEnd::SessionNotFound => result matches Some(Err(TeamError::SessionNotFound(x)))
            && x@ == s.team_id@,
        RemovalEnd::RuntimeFailed => result matches Some(
            Err(TeamError::MemberRuntimeFailed { team_id, slot_id, conversation_id, public_reason }),
        ) && team_id@ == s.team_id@ && slot_id@ == s.removed.slot_id@ && conversation_id@
            == s.removed.conversation_id@ && (
        event matches RemovalEvent::Joined(AttachOutcome::Failed { public_reason: reason })
            && public_reason@ == reason@),
    }
}

/// What a request to remove a member comes to, before anything is done.
pub open spec fn removal_begins(
    team: Seq<char>,
    agents: Seq<TeamAgent>,
    members: Option<Seq<EngagementMember>>,
    slot: Seq<char>,
    r: Result<Removal, TeamError>,
) -> bool {
    match resolved(agents, members, MemberKey::Slot, slot) {
        Err(missing) => r matches Err(TeamError::AgentNotFound(x)) && x@ == missing,
        Ok((agent, member)) => if agent.role == TeammateRole::Lead {
            r matches Err(TeamError::InvalidRequest(x)) && x@ == "cannot remove the team lead"@
        } else {
            r matches Ok(removal) && removal.team_id@ == team && removal.slot_id@ == slot
                && removal.removed == agent && removal.template_slot@ == template_slot_of(
                member,
                slot,
            ) && removal.stage is Beginning
        },
    }
}

impl TeamSessionService {
    /// Begins to remove a member of an owned team. The lead cannot be removed.
    pub fn remove_agent(
        team: Option<&Team>,
        user_id: &str,
        team_id: &str,
        members: Option<&[EngagementMember]>,
        slot_id: &str,
    ) -> (r: Result<Removal, TeamError>)
        ensures
            if !owned(team, user_id@, team_id@) {
                r matches Err(e) && not_found(e, team_id@)
            } else {
                removal_begins(team_id@, (team->0).agents@, member_list(members), slot_id@, r)
            },
    {
        let team = match load_owned_team(team, user_id, team_id) {
            Ok(t) => t,
            Err(e) => return Err(e),
        };
        let (removed, member) = match resolve_runtime_agent(
            team.agents.as_slice(),
            members,
            MemberKey::Slot,
            slot_id,
        ) {
            Ok(found) => found,
            Err(e) => return Err(e),
        };
        if removed.role == TeammateRole::Lead {
            return Err(TeamError::InvalidRequest("cannot remove the team lead".to_owned()));
        }
        let template_slot = template_slot_key(&member, slot_id);
        Ok(
            Removal {
                team_id: team_id.to_owned(),
                slot_id: slot_id.to_owned(),
                removed,
                template_slot,
                stage: RemovalStage::Beginning,
                first_session: None,
                lease: false,
                active: false,
            },
        )
    }
}

/// The roster without the slot.
pub open spec fn leaves(agents: Seq<TeamAgent>, slot: Seq<char>, roster: Seq<TeamAgent>) -> bool {
    roster == agents.filter(|a: TeamAgent| a.slot_id@ != slot)
}

impl Removal {
    /// Takes in what happened and says what is to be done.
    #[verifier::rlimit(60)]
    pub fn step(&mut self, event: RemovalEvent) -> (r: RemovalStep)
        ensures
            *final(self) == (Removal {
                stage: removal_next(*old(self), event).stage,
                first_session: removal_next(*old(self), event).first_session,
                lease: removal_next(*old(self), event).lease,
                active: removal_next(*old(self), event).active,
                ..*old(self)
            }),
            r.actions@ == removal_next(*old(self), event).actions,
            removal_result(*old(self), event, removal_next(*old(self), event).end, r.result),
            match (old(self).stage, event) {
                (RemovalStage::Reloading, RemovalEvent::Reloaded { agents }) =>
                    r.roster matches Some(roster) && roster@ == agents@.filter(
                        |a: TeamAgent| a.slot_id@ != old(self).template_slot@,
                    ),
                _ => r.roster is None,
            },
            match (old(self).stage, event) {
                (RemovalStage::Reloading, RemovalEvent::Reloaded { agents }) =>
                    r.roster matches Some(roster) && leaves(
                        agents@,
                        old(self).template_slot@,
                        roster@,
                    ),
                _ => r.roster is None,
            },
    {
        let ghost next = removal_next(*self, event);
        let mut actions: Vec<RemovalAction> = Vec::new();
        let mut roster: Option<Vec<TeamAgent>> = None;
        let mut result: Option<Result<(), TeamError>> = None;
        match (self.stage, event) {
            (RemovalStage::Beginning, RemovalEvent::NoSession) => {
                actions.push(RemovalAction::Kill);
                self.first_session = None;
                self.lease = false;
                self.stage = RemovalStage::Killing;
            },
            (RemovalStage::Beginning, RemovalEvent::Begun { generation, answer }) => {
                self.first_session = Some(generation);
                match answer {
                    BeginRemove::Join => {
                        actions.push(RemovalAction::Wait);
                        self.lease = false;
                        self.stage = RemovalStage::Joining;
                    },
                    _ => {
                        actions.push(RemovalAction::StopEventLoop);
                        actions.push(RemovalAction::Kill);
                        self.lease = answer == BeginRemove::Start;
                        self.stage = RemovalStage::Killing;
                    },
                }
            },
            (RemovalStage::Joining, RemovalEvent::Joined(outcome)) => {
                self.stage = RemovalStage::Done;
                result = Some(
                    match outcome {
                        AttachOutcome::Removed => Ok(()),
                        AttachOutcome::Failed { public_reason } => Err(
                            TeamError::MemberRuntimeFailed {
                                team_id: self.team_id.clone(),
                                slot_id: self.removed.slot_id.clone(),
                                conversation_id: self.removed.conversation_id.clone(),
                                public_reason,
                            },
                        ),
                        _ => Err(TeamError::SessionNotFound(self.team_id.clone())),
                    },
                );
            },
            (RemovalStage::Killing, RemovalEvent::Killed) => {
                actions.push(RemovalAction::ReloadTeam);
                self.stage = RemovalStage::Reloading;
            },
            (RemovalStage::Reloading, RemovalEvent::ReloadFailed(e)) => {
                self.stage = RemovalStage::Done;
                result = Some(Err(e));
            },
            (RemovalStage::Reloading, RemovalEvent::Reloaded { agents }) => {
                actions.push(RemovalAction::Persist);
                roster = Some(without_slot(agents.as_slice(), self.template_slot.as_str()));
                self.stage = RemovalStage::Persisting;
            },
            (RemovalStage::Persisting, RemovalEvent::PersistFailed(e)) => {
                if self.first_session.is_some() && self.lease {
                    actions.push(RemovalAction::RestoreRuntime);
                    actions.push(RemovalAction::RefreshStatus);
                }
                self.stage = RemovalStage::Done;
                result = Some(Err(e));
            },
            (RemovalStage::Persisting, RemovalEvent::Persisted) => {
                actions.push(RemovalAction::FindSession);
                self.stage = RemovalStage::Finding;
            },
            (RemovalStage::Finding, RemovalEvent::SessionNow(now)) => {
                let same = match (now, self.first_session) {
                    (Some(a), Some(b)) => a == b,
                    _ => false,
                };
                if now.is_none() {
                    actions.push(RemovalAction::DeleteConversation);
                    self.active = false;
                    self.stage = RemovalStage::Deleting;
                } else if same {
                    actions.push(RemovalAction::StopEventLoop);
                    actions.push(RemovalAction::Kill);
                    self.active = true;
                    self.stage = RemovalStage::KillingAgain;
                } else {
                    actions.push(RemovalAction::BeginRemove);
                    self.stage = RemovalStage::BeginningAgain;
                }
            },
            (RemovalStage::BeginningAgain, RemovalEvent::Begun { answer, .. }) => {
                match answer {
                    BeginRemove::Join => {
                        actions.push(RemovalAction::Wait);
                        self.stage = RemovalStage::JoiningAgain;
                    },
                    _ => {
                        actions.push(RemovalAction::StopEventLoop);
                        actions.push(RemovalAction::Kill);
                        self.lease = answer == BeginRemove::Start;
                        self.active = true;
                        self.stage = RemovalStage::KillingAgain;
                    },
                }
            },
            (RemovalStage::JoiningAgain, RemovalEvent::Joined(_)) => {
                actions.push(RemovalAction::StopEventLoop);
                actions.push(RemovalAction::Kill);
                self.lease = false;
                self.active = true;
                self.stage = RemovalStage::KillingAgain;
            },
            (RemovalStage::KillingAgain, RemovalEvent::Killed) => {
                actions.push(RemovalAction::Unschedule);
                self.stage = RemovalStage::Unscheduling;
            },
            (RemovalStage::Unscheduling, RemovalEvent::UnscheduleFailed(e)) => match e {
                TeamError::AgentNotFound(_) => {
                    if self.lease {
                        actions.push(RemovalAction::FinishRemove);
                    }
                    actions.push(RemovalAction::DeleteConversation);
                    self.stage = RemovalStage::Deleting;
                },
                _ => {
                    self.stage = RemovalStage::Done;
                    result = Some(Err(e));
                },
            },
            (RemovalStage::Unscheduling, RemovalEvent::Unscheduled) => {
                if self.lease {
                    actions.push(RemovalAction::FinishRemove);
                }
                actions.push(RemovalAction::DeleteConversation);
                self.stage = RemovalStage::Deleting;
            },
            (RemovalStage::Deleting, RemovalEvent::Deleted) => {
                if self.active {
                    actions.push(RemovalAction::CheckSession);
                    self.stage = RemovalStage::Checking;
                } else {
                    actions.push(RemovalAction::AnnounceRemoved);
                    self.stage = RemovalStage::Done;
                    result = Some(Ok(()));
                }
            },
            (RemovalStage::Checking, RemovalEvent::StillRunning(runs)) => {
                if runs {
                    actions.push(RemovalAction::NotifyLead);
                    self.stage = RemovalStage::Notifying;
                } else {
                    actions.push(RemovalAction::AnnounceRemoved);
                    self.stage = RemovalStage::Done;
                    result = Some(Ok(()));
                }
            },
            (RemovalStage::Notifying, RemovalEvent::NotifyFailed(e)) => {
                self.stage = RemovalStage::Done;
                result = Some(Err(e));
            },
            (RemovalStage::Notifying, RemovalEvent::Notified) => {
                actions.push(RemovalAction::RefreshStatus);
                self.stage = RemovalStage::Done;
                result = Some(Ok(()));
            },
            _ => {},
        }
        assert(actions@ =~= next.actions);
        RemovalStep { actions, roster, result }
    }
}

/// The roster without the member is stored already.
pub open spec fn stored(stage: RemovalStage) -> bool {
    stage is Finding || stage is BeginningAgain || stage is JoiningAgain || stage is KillingAgain
        || stage is Unscheduling || stage is Deleting || stage is Checking || stage is Notifying
}

/// The conversation of a member is deleted only after the roster without it was
/// stored; no other way leads to where that is the case. A removal whose roster
/// could not be stored keeps the conversation.
pub proof fn law_conversation_goes_last(s: Removal, event: RemovalEvent)
    ensures
        removal_next(s, event).actions.contains(RemovalAction::DeleteConversation) ==> stored(
            s.stage,
        ),
        stored(removal_next(s, event).stage) ==> stored(s.stage) || (s.stage is Persisting && event
            is Persisted),
        event is PersistFailed && s.stage is Persisting ==> removal_next(s, event).stage is Done
            && !removal_next(s, event).actions.contains(RemovalAction::DeleteConversation),
{
    let n = removal_next(s, event);
    if n.actions.contains(RemovalAction::DeleteConversation) {
        let k = choose|k: int|
            0 <= k < n.actions.len() && n.actions[k] == RemovalAction::DeleteConversation;
        assert(n.actions[k] == RemovalAction::DeleteConversation);
    }
}

/// A runtime that was taken for removal is marked for a fresh start where the
/// roster could not be stored.
pub proof fn law_failed_removal_restores_the_runtime(s: Removal, e: TeamError)
    requires
        s.stage is Persisting,
        s.first_session is Some,
        s.lease,
    ensures
        removal_next(s, RemovalEvent::PersistFailed(e)).actions.contains(
            RemovalAction::RestoreRuntime,
        ),
{
    let n = removal_next(s, RemovalEvent::PersistFailed(e));
    assert(n.actions[0] == RemovalAction::RestoreRuntime);
}

/// The member left the scheduler, or had left it before.
pub open spec fn has_left(s: Removal, event: RemovalEvent) -> bool {
    s.stage is Unscheduling && (event is Unscheduled || (event matches RemovalEvent::UnscheduleFailed(
        TeamError::AgentNotFound(_),
    )))
}

/// The runtime of the member has to end in a session: in the one in which its removal
/// began, or in the one that runs once the roster was stored.
pub open spec fn has_to_end(s: Removal, event: RemovalEvent) -> bool {
    ||| (s.stage is Beginning || s.stage is BeginningAgain) && (event matches RemovalEvent::Begun {
        answer,
        ..
    } && answer != BeginRemove::Join)
    ||| s.stage is Finding && (event matches RemovalEvent::SessionNow(now) && now is Some && now
        == s.first_session)
    ||| s.stage is JoiningAgain && event is Joined
}

/// A removal asks for each thing at one moment and at no other.
pub proof fn law_removal_asks_in_turn(s: Removal, event: RemovalEvent)
    ensures
        ({
            let a = removal_next(s, event).actions;
            &&& a.contains(RemovalAction::Wait) <==> (s.stage is Beginning || s.stage
                is BeginningAgain) && (event matches RemovalEvent::Begun { answer, .. } && answer
                == BeginRemove::Join)
            &&& a.contains(RemovalAction::StopEventLoop) <==> has_to_end(s, event)
            &&& a.contains(RemovalAction::Kill) <==> has_to_end(s, event) || (s.stage is Beginning
                && event is NoSession)
            &&& a.contains(RemovalAction::Kill) ==> a.last() == RemovalAction::Kill
            &&& a.contains(RemovalAction::ReloadTeam) <==> s.stage is Killing && event is Killed
            &&& a.contains(RemovalAction::Persist) <==> s.stage is Reloading && event is Reloaded
            &&& a.contains(RemovalAction::RestoreRuntime) <==> s.stage is Persisting
                && event is PersistFailed && s.first_session is Some && s.lease
            &&& a.contains(RemovalAction::RefreshStatus) <==> a.contains(
                RemovalAction::RestoreRuntime,
            ) || (s.stage is Notifying && event is Notified)
            &&& a.contains(RemovalAction::RestoreRuntime) ==> a[0] == RemovalAction::RestoreRuntime
            &&& a.contains(RemovalAction::FindSession) <==> s.stage is Persisting
                && event is Persisted
            &&& a.contains(RemovalAction::BeginRemove) <==> s.stage is Finding && (
            event matches RemovalEvent::SessionNow(now) && now is Some && now != s.first_session)
            &&& a.contains(RemovalAction::Unschedule) <==> s.stage is KillingAgain
                && event is Killed
            &&& a.contains(RemovalAction::FinishRemove) <==> has_left(s, event) && s.lease
            &&& a.contains(RemovalAction::FinishRemove) ==> a[0] == RemovalAction::FinishRemove
            &&& a.contains(RemovalAction::DeleteConversation) <==> has_left(s, event) || (s.stage
                is Finding && (event matches RemovalEvent::SessionNow(now) && now is None))
            &&& a.contains(RemovalAction::CheckSession) <==> s.stage is Deleting
                && event is Deleted && s.active
            &&& a.contains(RemovalAction::NotifyLead) <==> s.stage is Checking
                && (event matches RemovalEvent::StillRunning(true))
            &&& a.contains(RemovalAction::AnnounceRemoved) <==> (s.stage is Deleting
                && event is Deleted && !s.active) || (s.stage is Checking
                && (event matches RemovalEvent::StillRunning(false)))
            &&& a.len() <= 2
        }),
{
    lemma_few(removal_next(s, event).actions);
}

/// A removal answers once: with success where somebody else removed the member, or
/// where its conversation is gone and, if a session still runs, its lead was told; and
/// otherwise with what went wrong. That the scheduler lacked the member is no fault.
pub proof fn law_removal_answers_what_happened(
    s: Removal,
    event: RemovalEvent,
    result: Option<Result<(), TeamError>>,
)
    requires
        removal_result(s, event, removal_next(s, event).end, result),
    ensures
        s.stage is Done ==> result is None && removal_next(s, event).stage is Done,
        !(s.stage is Done) ==> (result is Some <==> removal_next(s, event).stage is Done),
        result == Some(Ok::<(), TeamError>(())) <==> {
            ||| s.stage is Joining && (event matches RemovalEvent::Joined(AttachOutcome::Removed))
            ||| s.stage is Deleting && event is Deleted && !s.active
            ||| s.stage is Checking && (event matches RemovalEvent::StillRunning(false))
            ||| s.stage is Notifying && event is Notified
        },
        s.stage is Joining ==> (event matches RemovalEvent::Joined(outcome) ==> {
            &&& outcome is Ready || outcome is SessionStopped <==> (result matches Some(
                Err(TeamError::SessionNotFound(x)),
            ) && x@ == s.team_id@)
            &&& outcome matches AttachOutcome::Failed { public_reason: reason } ==> (
            result matches Some(
                Err(
                    TeamError::MemberRuntimeFailed {
                        team_id,
                        slot_id,
                        conversation_id,
                        public_reason,
                    },
                ),
            ) && team_id@ == s.team_id@ && slot_id@ == s.removed.slot_id@ && conversation_id@
                == s.removed.conversation_id@ && public_reason@ == reason@)
        }),
        s.stage is Reloading ==> (event matches RemovalEvent::ReloadFailed(e) ==> result == Some(
            Err::<(), TeamError>(e),
        )),
        s.stage is Persisting ==> (event matches RemovalEvent::PersistFailed(e) ==> result == Some(
            Err::<(), TeamError>(e),
        )),
        s.stage is Unscheduling ==> (event matches RemovalEvent::UnscheduleFailed(e) ==> if e
            is AgentNotFound {
            result is None
        } else {
            result == Some(Err::<(), TeamError>(e))
        }),
        s.stage is Notifying ==> (event matches RemovalEvent::NotifyFailed(e) ==> result == Some(
            Err::<(), TeamError>(e),
        )),
{
}

/// A removal remembers in which session it began, whether the runtime there is its own
/// to give back, and whether a session runs once the roster was stored.
pub proof fn law_removal_remembers_its_session(s: Removal, event: RemovalEvent)
    ensures
        ({
            let n = removal_next(s, event);
            &&& s.stage is Beginning && event is NoSession ==> n.first_session is None && !n.lease
            &&& s.stage is Beginning ==> (event matches RemovalEvent::Begun { generation, answer }
                ==> n.first_session == Some(generation) && (n.lease <==> answer
                == BeginRemove::Start))
            &&& !(s.stage is Beginning) ==> n.first_session == s.first_session
            &&& s.stage is BeginningAgain ==> (event matches RemovalEvent::Begun { answer, .. }
                ==> answer != BeginRemove::Join ==> (n.lease <==> answer == BeginRemove::Start))
            &&& s.stage is JoiningAgain && event is Joined ==> !n.lease
            &&& !(s.stage is Beginning || s.stage is BeginningAgain || s.stage is JoiningAgain)
                ==> n.lease == s.lease
            &&& has_to_end(s, event) && !(s.stage is Beginning) ==> n.active
            &&& s.stage is Finding ==> (event matches RemovalEvent::SessionNow(now) ==> now is None
                ==> !n.active)
            &&& s.stage is Beginning || s.stage is Killing || s.stage is Reloading || s.stage
                is Persisting || s.stage is Unscheduling || s.stage is Deleting ==> n.active
                == s.active
        }),
{
}

/// A removal begins for a teammate and never for the lead, with what names it: its
/// slot, and the slot of the template that it stands for.
pub proof fn law_lead_is_never_removed(
    team: Seq<char>,
    agents: Seq<TeamAgent>,
    members: Option<Seq<EngagementMember>>,
    slot: Seq<char>,
    template: Seq<char>,
    i: int,
    r: Result<Removal, TeamError>,
)
    requires
        removal_begins(team, agents, members, slot, r),
        stands_for(agents, members, slot, template),
        0 <= i < agents.len(),
        agents[i].slot_id@ == template,
        forall|j: int| 0 <= j < i ==> (#[trigger] agents[j]).slot_id@ != template,
    ensures
        r is Ok <==> agents[i].role == TeammateRole::Teammate,
        agents[i].role == TeammateRole::Lead ==> (r matches Err(TeamError::InvalidRequest(x)) && x@
            == "cannot remove the team lead"@),
        r matches Ok(x) ==> x.team_id@ == team && x.slot_id@ == slot && x.removed.slot_id@ == slot
            && x.template_slot@ == template && x.stage is Beginning,
{
    lemma_stands_for(agents, members, slot, template);
    let at = crate::search::first_index(
        agents,
        crate::roster::agent_has(MemberKey::Slot, template),
    )->0;
    if at < i {
        assert(agents[at].slot_id@ != template);
    } else if i < at {
        assert(agents[i].slot_id@ != template);
    }
}

/// Whoever has the slot leaves the roster, and nobody else does.
pub proof fn law_only_the_member_leaves(
    agents: Seq<TeamAgent>,
    slot: Seq<char>,
    roster: Seq<TeamAgent>,
    i: int,
)
    requires
        leaves(agents, slot, roster),
        0 <= i < agents.len(),
    ensures
        roster.contains(agents[i]) <==> agents[i].slot_id@ != slot,
        roster.len() <= agents.len(),
{
    let p = |a: TeamAgent| a.slot_id@ != slot;
    assert(agents.contains(agents[i]));
    crate::task_board::lemma_filter_contains(agents, p, agents[i]);
    agents.lemma_filter_len(p);
}

} // verus!
