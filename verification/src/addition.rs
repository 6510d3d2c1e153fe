//! Adding an agent to a team: it joins the template, then the engagement that
//! runs, and starts in the session if there is one.
use crate::error::TeamError;
use crate::roster::{added_agent, added_runtime_agent, EngagementMember, TeamAgent};
use crate::search::lemma_few;
use vstd::prelude::*;

verus! {

/// How far an addition has come: what is awaited.
#[derive(Debug, Clone, Copy, PartialEq, Eq, Structural)]
pub enum AdditionStage {
    /// The agent, as it joined the template.
    Provisioning,
    /// The members of the engagement, made from the template.
    Materializing,
    /// The members of the engagement, as they are stored.
    Reading,
    /// The session that runs for the engagement.
    Finding,
    /// The agent, as it joined the session.
    Joining,
    Done,
}

#[derive(Debug)]
pub enum AdditionEvent {
    ProvisionFailed(TeamError),
    Provisioned { agent: TeamAgent, project_bound: bool },
    MaterializeFailed(TeamError),
    Materialized,
    /// The members that are stored; none where they could not be read.
    Members { members: Vec<EngagementMember> },
    NoSession,
    SessionFound,
    JoinFailed(TeamError),
    /// The session has the agent, but the service is going away.
    ServiceGone,
    Joined,
}

#[derive(Debug, Clone, Copy, PartialEq, Eq, Structural)]
pub enum AdditionAction {
    /// Make the members of the engagement from the template.
    EnsureMembers,
    ReadMembers,
    FindSession,
    /// Ask for the runtime of the agent, before anybody hears of it.
    ReserveAttach,
    JoinSession,
    AnnouncePending,
    /// Start the runtime in the background.
    SpawnAttach,
    AnnounceSpawned,
}

/// The addition of one agent. From `Finding` on, the agent is the one that
/// runs: in the slot of the member that was made from it, if there is one.
#[derive(Debug)]
pub struct Addition {
    pub stage: AdditionStage,
    pub agent: Option<TeamAgent>,
}

#[derive(Debug)]
pub struct AdditionStep {
    pub actions: Vec<AdditionAction>,
    pub result: Option<Result<TeamAgent, TeamError>>,
}

pub enum AdditionEnd {
    Open,
    /// It ends with the agent that runs.
    Success,
    EventError,
    ServiceGone,
}

pub struct AdditionNext {
    pub stage: AdditionStage,
    pub actions: Seq<AdditionAction>,
    pub end: AdditionEnd,
}

pub open spec fn addition_fails(end: AdditionEnd) -> AdditionNext {
    AdditionNext { stage: AdditionStage::Done, actions: Seq::empty(), end }
}

/// What follows from an event. An event that is not awaited changes nothing.
pub open spec fn addition_next(s: Addition, event: AdditionEvent) -> AdditionNext {
    match (s.stage, event) {
        (AdditionStage::Provisioning, AdditionEvent::ProvisionFailed(_)) => addition_fails(
            AdditionEnd::EventError,
        ),
        (AdditionStage::Provisioning, AdditionEvent::Provisioned { project_bound, .. }) =>
            if project_bound {
            AdditionNext {
                stage: AdditionStage::Materializing,
                actions: seq![AdditionAction::EnsureMembers],
                end: AdditionEnd::Open,
            }
        } else {
            AdditionNext {
                stage: AdditionStage::Reading,
                actions: seq![AdditionAction::ReadMembers],
                end: AdditionEnd::Open,
            }
        },
        (AdditionStage::Materializing, AdditionEvent::MaterializeFailed(_)) => addition_fails(
            AdditionEnd::EventError,
        ),
        (AdditionStage::Materializing, AdditionEvent::Materialized) => AdditionNext {
            stage: AdditionStage::Reading,
            actions: seq![AdditionAction::ReadMembers],
            end: AdditionEnd::Open,
        },
        (AdditionStage::Reading, AdditionEvent::Members { .. }) => AdditionNext {
            stage: AdditionStage::Finding,
            actions: seq![AdditionAction::FindSession],
            end: AdditionEnd::Open,
        },
        (AdditionStage::Finding, AdditionEvent::NoSession) => AdditionNext {
            stage: AdditionStage::Done,
            actions: seq![AdditionAction::AnnounceSpawned],
            end: AdditionEnd::Success,
        },
        (AdditionStage::Finding, AdditionEvent::SessionFound) => AdditionNext {
            stage: AdditionStage::Joining,
            actions: seq![AdditionAction::ReserveAttach, AdditionAction::JoinSession],
            end: AdditionEnd::Open,
        },
        (AdditionStage::Joining, AdditionEvent::JoinFailed(_)) => addition_fails(
            AdditionEnd::EventError,
        ),
        (AdditionStage::Joining, AdditionEvent::ServiceGone) => addition_fails(
            AdditionEnd::ServiceGone,
        ),
        (AdditionStage::Joining, AdditionEvent::Joined) => AdditionNext {
            stage: AdditionStage::Done,
            actions: seq![AdditionAction::AnnouncePending, AdditionAction::SpawnAttach],
            end: AdditionEnd::Success,
        },
        _ => AdditionNext { stage: s.stage, actions: Seq::empty(), end: AdditionEnd::Open },
    }
}

/// The agent, after an event.
pub open spec fn addition_agent(s: Addition, event: AdditionEvent) -> Option<TeamAgent> {
    match (s.stage, event) {
        (AdditionStage::Provisioning, AdditionEvent::Provisioned { agent, .. }) => Some(agent),
        (AdditionStage::Reading, AdditionEvent::Members { members }) => match s.agent {
            Some(a) => Some(added_agent(a, members@)),
            None => None,
        },
        _ => s.agent,
    }
}

pub open spec fn addition_event_error(event: AdditionEvent) -> Option<TeamError> {
    match event {
        AdditionEvent::ProvisionFailed(e) => Some(e),
        AdditionEvent::MaterializeFailed(e) => Some(e),
        AdditionEvent::JoinFailed(e) => Some(e),
        _ => None,
    }
}

pub open spec fn addition_result(
    s: Addition,
    event: AdditionEvent,
    end: AdditionEnd,
    result: Option<Result<TeamAgent, TeamError>>,
) -> bool {
    match end {
        AdditionEnd::Open => result is None,
        AdditionEnd::Success => s.agent matches Some(a) && result == Some(
            Ok::<TeamAgent, TeamError>(a),
        ),
        AdditionEnd::EventError => addition_event_error(event) matches Some(e) && result == Some(
            Err::<TeamAgent, TeamError>(e),
        ),
        AdditionEnd::ServiceGone => result matches Some(Err(TeamError::InvalidRequest(x))) && x@
            == "add_agent requires a live TeamSessionService"@,
    }
}

/// Once the agent was provisioned, the addition has it.
pub open spec fn addition_wf(s: Addition) -> bool {
    !(s.stage is Provisioning || s.stage is Done) ==> s.agent is Some
}

impl Addition {
    pub fn new() -> (r: Addition)
        ensures
            r.stage is Provisioning,
            r.agent is None,
            addition_wf(r),
    {
        Addition { stage: AdditionStage::Provisioning, agent: None }
    }

    fn finish(&self) -> (r: Option<Result<TeamAgent, TeamError>>)
        requires
            self.agent is Some,
        ensures
            r == Some(Ok::<TeamAgent, TeamError>(self.agent->0)),
    {
        match &self.agent {
            Some(a) => Some(Ok(a.clone())),
            None => None,
        }
    }

    /// Takes in what happened and says what is to be done.
    pub fn step(&mut self, event: AdditionEvent) -> (r: AdditionStep)
        requires
            addition_wf(*old(self)),
        ensures
            addition_wf(*final(self)),
            final(self).stage == addition_next(*old(self), event).stage,
            final(self).agent == addition_agent(*old(self), event),
            r.actions@ == addition_next(*old(self), event).actions,
            addition_result(*old(self), event, addition_next(*old(self), event).end, r.result),
    {
        let ghost next = addition_next(*self, event);
        let mut actions: Vec<AdditionAction> = Vec::new();
        let mut result: Option<Result<TeamAgent, TeamError>> = None;
        match (self.stage, event) {
            (AdditionStage::Provisioning, AdditionEvent::ProvisionFailed(e)) => {
                self.stage = AdditionStage::Done;
                result = Some(Err(e));
            },
            (AdditionStage::Provisioning, AdditionEvent::Provisioned { agent, project_bound }) => {
                self.agent = Some(agent);
                if project_bound {
                    actions.push(AdditionAction::EnsureMembers);
                    self.stage = AdditionStage::Materializing;
                } else {
                    actions.push(AdditionAction::ReadMembers);
                    self.stage = AdditionStage::Reading;
                }
            },
            (AdditionStage::Materializing, AdditionEvent::MaterializeFailed(e)) => {
                self.stage = AdditionStage::Done;
                result = Some(Err(e));
            },
            (AdditionStage::Materializing, AdditionEvent::Materialized) => {
                actions.push(AdditionAction::ReadMembers);
                self.stage = AdditionStage::Reading;
            },
            (AdditionStage::Reading, AdditionEvent::Members { members }) => {
                let running = match &self.agent {
                    Some(a) => Some(added_runtime_agent(a, members.as_slice())),
                    None => None,
                };
                self.agent = running;
                actions.push(AdditionAction::FindSession);
                self.stage = AdditionStage::Finding;
            },
            (AdditionStage::Finding, AdditionEvent::NoSession) => {
                actions.push(AdditionAction::AnnounceSpawned);
                result = self.finish();
                self.stage = AdditionStage::Done;
            },
            (AdditionStage::Finding, AdditionEvent::SessionFound) => {
                actions.push(AdditionAction::ReserveAttach);
                actions.push(AdditionAction::JoinSession);
                self.stage = AdditionStage::Joining;
            },
            (AdditionStage::Joining, AdditionEvent::JoinFailed(e)) => {
                self.stage = AdditionStage::Done;
                result = Some(Err(e));
            },
            (AdditionStage::Joining, AdditionEvent::ServiceGone) => {
                self.stage = AdditionStage::Done;
                result = Some(
                    Err(
                        TeamError::InvalidRequest(
                            "add_agent requires a live TeamSessionService".to_owned(),
                        ),
                    ),
                );
            },
            (AdditionStage::Joining, AdditionEvent::Joined) => {
                actions.push(AdditionAction::AnnouncePending);
                actions.push(AdditionAction::SpawnAttach);
                result = self.finish();
                self.stage = AdditionStage::Done;
            },
            _ => {},
        }
        assert(actions@ =~= next.actions);
        AdditionStep { actions, result }
    }
}

/// The runtime of an agent is asked for before the session has the agent, and
/// so before anybody can hear of it; a session that runs is never told of an
/// agent in any other way.
pub proof fn law_runtime_is_reserved_before_joining(s: Addition, event: AdditionEvent, k: int)
    requires
        0 <= k < addition_next(s, event).actions.len(),
        addition_next(s, event).actions[k] == AdditionAction::JoinSession,
    ensures
        k > 0,
        addition_next(s, event).actions[k - 1] == AdditionAction::ReserveAttach,
{
}

/// An addition asks for each thing at one moment and at no other: members are made
/// only for a team that is bound to a project, a place in the session is reserved
/// before it is taken, and the new agent starts only in a session that it joined.
pub proof fn law_addition_asks_in_turn(s: Addition, event: AdditionEvent)
    ensures
        ({
            let a = addition_next(s, event).actions;
            &&& a.contains(AdditionAction::EnsureMembers) <==> s.stage is Provisioning && (
            event matches AdditionEvent::Provisioned { project_bound, .. } && project_bound)
            &&& a.contains(AdditionAction::ReadMembers) <==> (s.stage is Provisioning && (
            event matches AdditionEvent::Provisioned { project_bound, .. } && !project_bound)) || (
            s.stage is Materializing && event is Materialized)
            &&& a.contains(AdditionAction::FindSession) <==> s.stage is Reading && event is Members
            &&& a.contains(AdditionAction::JoinSession) <==> s.stage is Finding
                && event is SessionFound
            &&& a.contains(AdditionAction::ReserveAttach) <==> a.contains(
                AdditionAction::JoinSession,
            )
            &&& a.contains(AdditionAction::JoinSession) ==> a.len() == 2 && a[0]
                == AdditionAction::ReserveAttach
            &&& a.contains(AdditionAction::SpawnAttach) <==> s.stage is Joining && event is Joined
            &&& a.contains(AdditionAction::AnnouncePending) <==> a.contains(
                AdditionAction::SpawnAttach,
            )
            &&& a.contains(AdditionAction::SpawnAttach) ==> a.len() == 2 && a[0]
                == AdditionAction::AnnouncePending
            &&& a.contains(AdditionAction::AnnounceSpawned) <==> s.stage is Finding
                && event is NoSession
            &&& a.len() <= 2
        }),
{
    lemma_few(addition_next(s, event).actions);
}

/// An addition answers once: with the agent that was added, as it runs, where it needs
/// no session or joined one, and with what went wrong where something did.
pub proof fn law_addition_answers_what_happened(
    s: Addition,
    event: AdditionEvent,
    result: Option<Result<TeamAgent, TeamError>>,
)
    requires
        addition_wf(s),
        addition_result(s, event, addition_next(s, event).end, result),
    ensures
        s.stage is Done ==> result is None && addition_next(s, event).stage is Done,
        !(s.stage is Done) ==> (result is Some <==> addition_next(s, event).stage is Done),
        (result matches Some(Ok(_))) <==> (s.stage is Finding && event is NoSession) || (s.stage
            is Joining && event is Joined),
        result matches Some(Ok(agent)) ==> s.agent == Some(agent),
        s.stage is Provisioning ==> (event matches AdditionEvent::ProvisionFailed(e) ==> result
            == Some(Err::<TeamAgent, TeamError>(e))),
        s.stage is Materializing ==> (event matches AdditionEvent::MaterializeFailed(e) ==> result
            == Some(Err::<TeamAgent, TeamError>(e))),
        s.stage is Joining ==> (event matches AdditionEvent::JoinFailed(e) ==> result == Some(
            Err::<TeamAgent, TeamError>(e),
        )),
        s.stage is Joining && event is ServiceGone ==> (result matches Some(
            Err(TeamError::InvalidRequest(x)),
        ) && x@ == "add_agent requires a live TeamSessionService"@),
        s.stage is Provisioning ==> (event matches AdditionEvent::Provisioned { agent, .. }
            ==> addition_agent(s, event) == Some(agent)),
        !(s.stage is Provisioning && event is Provisioned) && !(s.stage is Reading
            && event is Members) ==> addition_agent(s, event) == s.agent,
        s.stage is Reading ==> (event matches AdditionEvent::Members { members } ==> (forall|
            j: int,
        |
            0 <= j < members@.len() ==> (#[trigger] members@[j]).template_slot@
                != s.agent->0.slot_id@) ==> addition_agent(s, event) == s.agent),
{
    if let AdditionEvent::Members { members } = event {
        if s.agent is Some {
            crate::roster::law_added_agent_runs_as_its_member(s.agent->0, members@, 0);
        }
    }
}

} // verus!
