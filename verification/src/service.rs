//! What the owner of a team can ask of it.
use crate::activity::{
    activity_page, capped_task_ids, clamped, clamp_limit, item_views, may_have_more, names_cursor,
    newest_first, newest_tasks, readable_tasks, shown, ActivityKind, ActivityPage,
    MailboxMessageRow, PageDirection, MAX_TASK_ID_LOOKUP,
};
use crate::addition::Addition;
use crate::config::{TeamToolContext, TeamToolError, TeamToolErrorCode};
use crate::context_reset::ContextReset;
use crate::error::TeamError;
use crate::order::{first_of, sorted};
use crate::restart::{first_stage, MemberTarget, Restart};
use crate::roster::{
    conversations_of, lease_conversations, member_list, resolve_runtime_agent, resolved,
    EngagementMember, MemberKey, TeamAgent,
};
use crate::runtime::{
    active, is_active_run, SessionStatus, StatusText, TeamAgentRuntimeStatus, SlotWork,
    TeamRunStatus, TeamSessionPhase,
};
use crate::session_start::{failed, failed_status, starting, starting_status, SessionStart};
use crate::sessions::{
    at, lists_where, of_team, of_user, SessionEntry, SessionInfo, TeamSessionService,
};
use crate::task::{row_views, task_views, TeamTask, TeamTaskRow};
use crate::teams::{load_owned_team, owned, Team};
use crate::text::{is_blank, same_text, texts};
use vstd::prelude::*;

verus! {

/// The request is refused: the team does not exist, or belongs to another
/// user.
pub open spec fn not_found(e: TeamError, team_id: Seq<char>) -> bool {
    e matches TeamError::TeamNotFound(x) && x@ == team_id
}

/// How a team works at the moment.
#[derive(Debug)]
pub struct TeamRunState {
    pub session_generation: Option<u64>,
    pub active_run: Option<TeamRunStatus>,
    pub slot_work: Vec<SlotWork>,
}

impl TeamSessionService {
    /// One page of the activity feed of a team, from what was fetched of each
    /// stream for it.
    pub fn list_team_activity(
        team: Option<&Team>,
        user_id: &str,
        team_id: &str,
        messages: &[MailboxMessageRow],
        tasks: &[TeamTaskRow],
        direction: PageDirection,
        kind: ActivityKind,
        limit: i64,
    ) -> (r: Result<ActivityPage, TeamError>)
        ensures
            match r {
                Ok(page) => {
                    let rows = row_views(tasks@);
                    let bound = clamped(limit as int);
                    &&& owned(team, user_id@, team_id@)
                    &&& item_views(page.items@) == first_of(
                        shown(kind, direction, messages@, rows),
                        bound,
                    )
                    &&& page.has_more == may_have_more(kind, direction, messages@, rows, bound)
                    &&& names_cursor(page)
                },
                Err(e) => !owned(team, user_id@, team_id@) && not_found(e, team_id@),
            },
    {
        match load_owned_team(team, user_id, team_id) {
            Ok(_) => Ok(activity_page(kind, direction, messages, tasks, limit)),
            Err(e) => Err(e),
        }
    }

    /// How many messages of a team are fetched for its owner.
    pub fn list_team_mailbox(
        team: Option<&Team>,
        user_id: &str,
        team_id: &str,
        limit: i64,
    ) -> (r: Result<i64, TeamError>)
        ensures
            match r {
                Ok(n) => owned(team, user_id@, team_id@) && n == clamped(limit as int),
                Err(e) => !owned(team, user_id@, team_id@) && not_found(e, team_id@),
            },
    {
        match load_owned_team(team, user_id, team_id) {
            Ok(_) => Ok(clamp_limit(limit)),
            Err(e) => Err(e),
        }
    }

    /// The newest tasks of a team, from its rows.
    pub fn list_team_tasks(
        team: Option<&Team>,
        user_id: &str,
        team_id: &str,
        rows: &[TeamTaskRow],
        limit: i64,
    ) -> (r: Result<Vec<TeamTask>, TeamError>)
        ensures
            match r {
                Ok(tasks) => owned(team, user_id@, team_id@) && task_views(tasks@) == first_of(
                    sorted(newest_first(), readable_tasks(row_views(rows@))),
                    clamped(limit as int),
                ),
                Err(e) => !owned(team, user_id@, team_id@) && not_found(e, team_id@),
            },
    {
        match load_owned_team(team, user_id, team_id) {
            Ok(_) => Ok(newest_tasks(rows, limit)),
            Err(e) => Err(e),
        }
    }

    /// The ids of the tasks that are looked up for the owner of a team.
    pub fn list_team_tasks_by_ids(
        team: Option<&Team>,
        user_id: &str,
        team_id: &str,
        ids: &[String],
    ) -> (r: Result<Vec<String>, TeamError>)
        ensures
            match r {
                Ok(list) => owned(team, user_id@, team_id@) && list@ == first_of(
                    ids@,
                    MAX_TASK_ID_LOOKUP as int,
                ),
                Err(e) => !owned(team, user_id@, team_id@) && not_found(e, team_id@),
            },
    {
        match load_owned_team(team, user_id, team_id) {
            Ok(_) => Ok(capped_task_ids(ids)),
            Err(e) => Err(e),
        }
    }

    /// The conversations of a team on which its owner holds a lease.
    pub fn renew_active_lease(team: Option<&Team>, user_id: &str, team_id: &str) -> (r: Result<
        Vec<String>,
        TeamError,
    >)
        ensures
            match r {
                Ok(ids) => owned(team, user_id@, team_id@) && texts(ids@) == conversations_of(
                    (team->0).agents@,
                ).filter(|id: Seq<char>| !is_blank(id)),
                Err(e) => !owned(team, user_id@, team_id@) && not_found(e, team_id@),
            },
    {
        match load_owned_team(team, user_id, team_id) {
            Ok(team) => Ok(lease_conversations(team.agents.as_slice())),
            Err(e) => Err(e),
        }
    }

    /// Begins to start the session of a team.
    pub fn ensure_session(team: Option<&Team>, user_id: &str, team_id: &str) -> (r: Result<
        SessionStart,
        TeamError,
    >)
        ensures
            match r {
                Ok(start) => owned(team, user_id@, team_id@) && start.team_id@ == team_id@
                    && start.stage is Loading,
                Err(e) => !owned(team, user_id@, team_id@) && not_found(e, team_id@),
            },
    {
        match load_owned_team(team, user_id, team_id) {
            Ok(_) => Ok(SessionStart::new(team_id)),
            Err(e) => Err(e),
        }
    }

    /// Stops the session of an engagement of a team.
    pub fn stop_session(
        &mut self,
        team: Option<&Team>,
        user_id: &str,
        team_id: &str,
        engagement_id: &str,
    ) -> (r: Result<Option<SessionInfo>, TeamError>)
        ensures
            match r {
                Ok(stopped) => owned(team, user_id@, team_id@) && stopped == at(
                    old(self).sessions(),
                    engagement_id@,
                ) && final(self).sessions() == old(self).sessions().remove(engagement_id@),
                Err(e) => !owned(team, user_id@, team_id@) && not_found(e, team_id@)
                    && final(self).sessions() == old(self).sessions(),
            },
    {
        match load_owned_team(team, user_id, team_id) {
            Ok(_) => Ok(self.stop_session_unchecked(engagement_id)),
            Err(e) => Err(e),
        }
    }

    /// The member of a team that a request to restart or to clear is about.
    fn member_target(
        team: Option<&Team>,
        user_id: &str,
        team_id: &str,
        members: Option<&[EngagementMember]>,
        slot_id: &str,
    ) -> (r: Result<(MemberTarget, TeamAgent), TeamError>)
        ensures
            if !owned(team, user_id@, team_id@) {
                r matches Err(e) && not_found(e, team_id@)
            } else {
                match resolved(
                    (team->0).agents@,
                    member_list(members),
                    MemberKey::Slot,
                    slot_id@,
                ) {
                    Ok((a, _)) => r matches Ok((t, agent)) && agent == a && t.team_id@ == team_id@
                        && t.slot_id@ == slot_id@ && t.conversation_id == a.conversation_id,
                    Err(missing) => r matches Err(TeamError::AgentNotFound(x)) && x@ == missing,
                }
            },
    {
        let team = match load_owned_team(team, user_id, team_id) {
            Ok(t) => t,
            Err(e) => return Err(e),
        };
        match resolve_runtime_agent(
            team.agents.as_slice(),
            members,
            MemberKey::Slot,
            slot_id,
        ) {
            Ok((agent, _)) => {
                let target = MemberTarget {
                    team_id: team_id.to_owned(),
                    slot_id: slot_id.to_owned(),
                    conversation_id: agent.conversation_id.clone(),
                };
                Ok((target, agent))
            },
            Err(e) => Err(e),
        }
    }

    /// Begins to restart the runtime of a member. Queued work stands in the way
    /// unless the request allows for it; such a request first has the session
    /// started.
    pub fn restart_agent_runtime(
        team: Option<&Team>,
        user_id: &str,
        team_id: &str,
        members: Option<&[EngagementMember]>,
        slot_id: &str,
        allow_queued: bool,
    ) -> (r: Result<Restart, TeamError>)
        ensures
            if !owned(team, user_id@, team_id@) {
                r matches Err(e) && not_found(e, team_id@)
            } else {
                match resolved(
                    (team->0).agents@,
                    member_list(members),
                    MemberKey::Slot,
                    slot_id@,
                ) {
                    Ok((a, _)) => r matches Ok(s) && s.stage == first_stage(allow_queued)
                        && s.allow_queued == allow_queued && s.target.team_id@ == team_id@
                        && s.target.slot_id@ == slot_id@ && s.target.conversation_id
                        == a.conversation_id,
                    Err(missing) => r matches Err(TeamError::AgentNotFound(x)) && x@ == missing,
                }
            },
            r matches Ok(s) ==> targets(
                team_id@,
                (team->0).agents@,
                member_list(members),
                slot_id@,
                s.target,
            ),
    {
        match TeamSessionService::member_target(team, user_id, team_id, members, slot_id) {
            Ok((target, _)) => Ok(Restart::new(target, allow_queued)),
            Err(e) => Err(e),
        }
    }

    /// Begins to clear the context of a member.
    pub fn clear_agent_context(
        team: Option<&Team>,
        user_id: &str,
        team_id: &str,
        members: Option<&[EngagementMember]>,
        slot_id: &str,
    ) -> (r: Result<ContextReset, TeamError>)
        ensures
            if !owned(team, user_id@, team_id@) {
                r matches Err(e) && not_found(e, team_id@)
            } else {
                match resolved(
                    (team->0).agents@,
                    member_list(members),
                    MemberKey::Slot,
                    slot_id@,
                ) {
                    Ok((a, _)) => r matches Ok(s) && s.stage is Checking && s.backend@ == a.backend@
                        && s.target.team_id@ == team_id@ && s.target.slot_id@ == slot_id@
                        && s.target.conversation_id == a.conversation_id,
                    Err(missing) => r matches Err(TeamError::AgentNotFound(x)) && x@ == missing,
                }
            },
            r matches Ok(s) ==> targets(
                team_id@,
                (team->0).agents@,
                member_list(members),
                slot_id@,
                s.target,
            ),
    {
        match TeamSessionService::member_target(team, user_id, team_id, members, slot_id) {
            Ok((target, agent)) => Ok(ContextReset::new(target, agent.backend.as_str())),
            Err(e) => Err(e),
        }
    }

    /// Begins to add an agent to a team.
    pub fn add_agent(team: Option<&Team>, user_id: &str, team_id: &str) -> (r: Result<
        Addition,
        TeamError,
    >)
        ensures
            match r {
                Ok(s) => owned(team, user_id@, team_id@) && s.stage is Provisioning,
                Err(e) => !owned(team, user_id@, team_id@) && not_found(e, team_id@),
            },
    {
        match load_owned_team(team, user_id, team_id) {
            Ok(_) => Ok(Addition::new()),
            Err(e) => Err(e),
        }
    }

    /// The status to announce while the lead of a session starts; none once
    /// another session is published for the engagement.
    pub fn publish_member_runtime_starting_if_current(&self, expected: &SessionInfo) -> (r: Option<
        SessionStatus,
    >)
        ensures
            r == if self.is_current(*expected) {
                Some(starting(TeamSessionPhase::AttachingAgents))
            } else {
                None
            },
    {
        if self.capture_published_session(expected).is_some() {
            Some(starting_status(TeamSessionPhase::AttachingAgents))
        } else {
            None
        }
    }

    /// The status to announce when the lead of a session failed; none once
    /// another session is published for the engagement.
    pub fn publish_member_runtime_failed_if_current(&self, expected: &SessionInfo) -> (r: Option<
        SessionStatus,
    >)
        ensures
            r == if self.is_current(*expected) {
                Some(failed(TeamSessionPhase::AttachingAgents, StatusText::OfFailure))
            } else {
                None
            },
    {
        if self.capture_published_session(expected).is_some() {
            Some(failed_status(TeamSessionPhase::AttachingAgents, StatusText::OfFailure))
        } else {
            None
        }
    }

    /// The status to announce when a member is ready; none once another session
    /// is published for the engagement.
    pub fn publish_member_runtime_ready_if_current(&self, expected: &SessionInfo) -> (r: Option<
        TeamAgentRuntimeStatus,
    >)
        ensures
            r == if self.is_current(*expected) {
                Some(TeamAgentRuntimeStatus::Ready)
            } else {
                None
            },
    {
        if self.capture_published_session(expected).is_some() {
            Some(TeamAgentRuntimeStatus::Ready)
        } else {
            None
        }
    }

    /// The session is still the one that is published for its engagement.
    pub open spec fn is_current(self, expected: SessionInfo) -> bool {
        at(self.sessions(), expected.engagement_id@) matches Some(s) && s.generation
            == expected.generation
    }

    /// The session in which a tool runs: one of the team on whose behalf it is
    /// called.
    pub fn execute_team_tool(&self, context: &TeamToolContext) -> (r: Result<
        SessionInfo,
        TeamToolError,
    >)
        ensures
            match r {
                Ok(s) => of_team(context.team_id@)(s) && exists|k: Seq<char>| #[trigger]
                    self.sessions().dom().contains(k) && self.sessions()[k] == s,
                Err(e) => e.code == TeamToolErrorCode::TeamNotFound && e.message@
                    == "active team session not found"@ && forall|k: Seq<char>| #[trigger]
                    self.sessions().dom().contains(k) ==> !of_team(context.team_id@)(
                    self.sessions()[k],
                ),
            },
    {
        match self.published_session(context.team_id.as_str()) {
            Ok(session) => Ok(session),
            Err(_) => Err(
                TeamToolError {
                    code: TeamToolErrorCode::TeamNotFound,
                    message: "active team session not found".to_owned(),
                },
            ),
        }
    }

    /// How a team works at the moment: the generation of its session, the status
    /// of its run while that is active, and what its slots work at. `run` is the
    /// run that the session had last, `slots` its slots.
    pub fn get_run_state(
        &self,
        team: Option<&Team>,
        user_id: &str,
        team_id: &str,
        engagement_id: &str,
        run: Option<TeamRunStatus>,
        slots: Vec<SlotWork>,
    ) -> (r: Result<TeamRunState, TeamError>)
        ensures
            match r {
                Ok(state) => owned(team, user_id@, team_id@) && match at(
                    self.sessions(),
                    engagement_id@,
                ) {
                    None => state.session_generation is None && state.active_run is None
                        && state.slot_work@.len() == 0,
                    Some(s) => state.session_generation == Some(s.generation) && state.active_run
                        == (match run {
                        Some(status) if active(status) => Some(status),
                        _ => None,
                    }) && state.slot_work == slots,
                } && run_shown(at(self.sessions(), engagement_id@), run, slots, state),
                Err(e) => !owned(team, user_id@, team_id@) && not_found(e, team_id@),
            },
    {
        if let Err(e) = load_owned_team(team, user_id, team_id) {
            return Err(e);
        }
        match self.session_of(engagement_id) {
            None => Ok(
                TeamRunState {
                    session_generation: None,
                    active_run: None,
                    slot_work: Vec::new(),
                },
            ),
            Some(s) => {
                let active_run = match run {
                    Some(status) => if is_active_run(status) {
                        Some(status)
                    } else {
                        None
                    },
                    None => None,
                };
                Ok(
                    TeamRunState {
                        session_generation: Some(s.generation),
                        active_run,
                        slot_work: slots,
                    },
                )
            },
        }
    }

    /// The sessions that a change for one user's assistant concerns, in any
    /// order.
    pub fn handle_assistant_mcp_binding_changed(&self, user_id: &str) -> (r: Vec<SessionEntry>)
        ensures
            lists_where(r@, self.sessions(), of_user(user_id@)),
    {
        self.sessions_for_user(user_id)
    }

    /// Whether the process of a conversation may be ended for a session that
    /// failed to start: not once another session runs for the engagement.
    pub fn cleanup_stale_member_runtime_task(&self, captured: &SessionInfo) -> (r: bool)
        ensures
            r == match at(self.sessions(), captured.engagement_id@) {
                Some(s) => s.generation == captured.generation,
                None => true,
            },
            may_be_ended(at(self.sessions(), captured.engagement_id@), *captured, r),
    {
        match self.session_of(captured.engagement_id.as_str()) {
            Some(s) => s.generation == captured.generation,
            None => true,
        }
    }
}

/// The agents that run an assistant.
pub open spec fn runs_assistant(assistant: Seq<char>) -> spec_fn(TeamAgent) -> bool {
    |a: TeamAgent| a.assistant_id matches Some(x) && x@ == assistant
}

/// The agents that run an assistant, in the order of the roster.
pub fn agents_with_assistant(agents: &[TeamAgent], assistant_id: &str) -> (r: Vec<TeamAgent>)
    ensures
        r@ == agents@.filter(runs_assistant(assistant_id@)),
{
    let ghost keep = runs_assistant(assistant_id@);
    let mut r: Vec<TeamAgent> = Vec::new();
    let mut i: usize = 0;
    proof {
        reveal(Seq::filter);
        assert(agents@.take(0).filter(keep) =~= Seq::<TeamAgent>::empty());
    }
    while i < agents.len()
        invariant
            i <= agents@.len(),
            keep == runs_assistant(assistant_id@),
            r@ == agents@.take(i as int).filter(keep),
        decreases agents@.len() - i,
    {
        proof {
            reveal(Seq::filter);
            assert(agents@.take(i + 1).drop_last() =~= agents@.take(i as int));
        }
        let runs = match &agents[i].assistant_id {
            Some(x) => same_text(x.as_str(), assistant_id),
            None => false,
        };
        if runs {
            r.push(agents[i].clone());
        }
        i = i + 1;
    }
    assert(agents@.take(i as int) =~= agents@);
    r
}

/// Whoever asks for a team that is not theirs is told that it was not found, by the id
/// that they asked for.
pub proof fn law_refusal_names_the_team(e: TeamError, team_id: Seq<char>)
    requires
        not_found(e, team_id),
    ensures
        e matches TeamError::TeamNotFound(x) && x@ == team_id,
{
}

/// A session is the current one exactly where it is published under its engagement in
/// the same generation.
pub proof fn law_replaced_session_is_not_current(
    service: TeamSessionService,
    expected: SessionInfo,
)
    ensures
        service.is_current(expected) <==> service.sessions().dom().contains(
            expected.engagement_id@,
        ) && service.sessions()[expected.engagement_id@].generation == expected.generation,
{
}

/// An agent is concerned by an assistant exactly where it runs that one.
pub proof fn law_other_assistants_are_not_concerned(agents: Seq<TeamAgent>, assistant: Seq<char>)
    ensures
        agents.filter(runs_assistant(assistant)) == agents.filter(
            |a: TeamAgent| a.assistant_id is Some && a.assistant_id->0@ == assistant,
        ),
{
    crate::search::lemma_filter_same(
        agents,
        runs_assistant(assistant),
        |a: TeamAgent| a.assistant_id is Some && a.assistant_id->0@ == assistant,
    );
}

/// The conversations whose lease is renewed are those of the agents, in their order,
/// but for the blank ones.
pub proof fn law_every_conversation_is_leased(agents: Seq<TeamAgent>, i: int)
    requires
        0 <= i < agents.len(),
        !is_blank(agents[i].conversation_id@),
    ensures
        conversations_of(agents).filter(|id: Seq<char>| !is_blank(id)).contains(
            agents[i].conversation_id@,
        ),
{
    let all = conversations_of(agents);
    let p = |id: Seq<char>| !is_blank(id);
    assert(all[i] == agents[i].conversation_id@);
    assert(all.contains(all[i]));
    crate::task_board::lemma_filter_contains(all, p, all[i]);
}

/// What the state of a run shows: that of the session, where one runs.
pub open spec fn run_shown(
    session: Option<SessionInfo>,
    run: Option<TeamRunStatus>,
    slots: Vec<SlotWork>,
    state: TeamRunState,
) -> bool {
    match session {
        None => state.session_generation is None && state.active_run is None
            && state.slot_work@.len() == 0,
        Some(s) => {
            &&& state.session_generation == Some(s.generation)
            &&& state.active_run == (match run {
                Some(status) if active(status) => Some(status),
                _ => None,
            })
            &&& state.slot_work == slots
        },
    }
}

/// A run is shown only while a session runs and only until it ended; the work of the
/// slots is shown whole, and is nothing where no session runs.
pub proof fn law_only_an_active_run_is_shown(
    session: Option<SessionInfo>,
    run: Option<TeamRunStatus>,
    slots: Vec<SlotWork>,
    state: TeamRunState,
)
    requires
        run_shown(session, run, slots, state),
    ensures
        state.session_generation is Some <==> session is Some,
        session is Some ==> state.session_generation == Some(session->0.generation)
            && state.slot_work == slots,
        session is None ==> state.active_run is None && state.slot_work@.len() == 0,
        state.active_run is Some ==> run == state.active_run,
        session is Some && run is Some ==> (state.active_run is Some <==> !(run->0
            == TeamRunStatus::Completed || run->0 == TeamRunStatus::Cancelled || run->0
            == TeamRunStatus::Failed)),
{
}

/// Whether a task that was left over may be ended: not where another session took the
/// place of the one that it was captured for.
pub open spec fn may_be_ended(
    session: Option<SessionInfo>,
    captured: SessionInfo,
    r: bool,
) -> bool {
    r == match session {
        Some(s) => s.generation == captured.generation,
        None => true,
    }
}

/// A task is left alone exactly where a session of another generation runs under the
/// engagement.
pub proof fn law_task_of_a_newer_session_is_left_alone(
    session: Option<SessionInfo>,
    captured: SessionInfo,
    r: bool,
)
    requires
        may_be_ended(session, captured, r),
    ensures
        !r <==> session is Some && session->0.generation != captured.generation,
{
}

/// The target is the member that runs the slot.
pub open spec fn targets(
    team: Seq<char>,
    agents: Seq<TeamAgent>,
    members: Option<Seq<EngagementMember>>,
    slot: Seq<char>,
    t: MemberTarget,
) -> bool {
    &&& resolved(agents, members, MemberKey::Slot, slot) matches Ok((a, _)) && t.conversation_id
        == a.conversation_id
    &&& t.team_id@ == team
    &&& t.slot_id@ == slot
}

/// What is done to a slot is done in the conversation in which it runs: that of the
/// first member with the slot, or, where the team has no members, that of the first
/// agent.
pub proof fn law_slot_is_reached_where_it_runs(
    team: Seq<char>,
    agents: Seq<TeamAgent>,
    members: Option<Seq<EngagementMember>>,
    slot: Seq<char>,
    t: MemberTarget,
    k: int,
)
    requires
        targets(team, agents, members, slot, t),
    ensures
        t.team_id@ == team,
        t.slot_id@ == slot,
        members is Some && members->0.len() > 0 && 0 <= k < members->0.len()
            && members->0[k].slot_id@ == slot && (forall|j: int|
            0 <= j < k ==> (#[trigger] members->0[j]).slot_id@ != slot) ==> t.conversation_id@
            == members->0[k].conversation_id@,
        (members is None || members->0.len() == 0) && 0 <= k < agents.len() && agents[k].slot_id@
            == slot && (forall|j: int| 0 <= j < k ==> (#[trigger] agents[j]).slot_id@ != slot)
            ==> t.conversation_id@ == agents[k].conversation_id@,
{
    if let Some(ms) = members {
        let q = crate::roster::member_has(MemberKey::Slot, slot);
        if 0 <= k < ms.len() && ms[k].slot_id@ == slot && (forall|j: int|
            0 <= j < k ==> (#[trigger] ms[j]).slot_id@ != slot) {
            assert forall|j: int| 0 <= j < k implies !q(#[trigger] ms[j]) by {
                assert(ms[j].slot_id@ != slot);
            }
            crate::search::lemma_is_first(ms, q, k);
        }
    }
    let p = crate::roster::agent_has(MemberKey::Slot, slot);
    if 0 <= k < agents.len() && agents[k].slot_id@ == slot && (forall|j: int|
        0 <= j < k ==> (#[trigger] agents[j]).slot_id@ != slot) {
        assert forall|j: int| 0 <= j < k implies !p(#[trigger] agents[j]) by {
            assert(agents[j].slot_id@ != slot);
        }
        crate::search::lemma_is_first(agents, p, k);
    }
}

} // verus!
