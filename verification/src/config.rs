//! Changing the options of a member, and the mode of a whole team.
use crate::error::TeamError;
use crate::roster::{
    is_starting_error, member_list, member_runtime_starting_error, resolve_runtime_agent, resolved,
    EngagementMember, MemberKey, TeamAgent,
};
use crate::scheduler::TeammateRole;
use crate::search::{any, first, lemma_is_first, lemma_no_first};
use crate::service::not_found;
use crate::sessions::TeamSessionService;
use crate::teams::{load_owned_team, owned, Team};
use crate::text::{
    is_blank, lemma_trimmed_empty, opt_text, same_text, text_listed, texts, trim, trimmed,
};
use vstd::prelude::*;

verus! {

/// An option of a conversation.
#[derive(Debug)]
pub struct ConfigOption {
    pub id: String,
    pub category: Option<String>,
}

/// The option has that id and is the one of that name, by its category or by
/// its id.
pub open spec fn is_named(id: Seq<char>, name: Seq<char>) -> spec_fn(ConfigOption) -> bool {
    |o: ConfigOption| o.id@ == id && (opt_text(o.category) == Some(name) || o.id@ == name)
}

fn names_option(options: &[ConfigOption], option_id: &str, name: &str) -> (r: bool)
    ensures
        r == any(options@, is_named(option_id@, name@)),
{
    let ghost p = is_named(option_id@, name@);
    let mut i: usize = 0;
    while i < options.len()
        invariant
            i <= options@.len(),
            p == is_named(option_id@, name@),
            forall|k: int| 0 <= k < i ==> !p(#[trigger] options@[k]),
        decreases options@.len() - i,
    {
        let o = &options[i];
        let by_category = match &o.category {
            Some(c) => same_text(c.as_str(), name),
            None => false,
        };
        if same_text(o.id.as_str(), option_id) && (by_category || same_text(o.id.as_str(), name)) {
            assert(p(options@[i as int]));
            return true;
        }
        i = i + 1;
    }
    false
}

/// The runtime of the agent is starting.
pub open spec fn is_starting(starting: Seq<Seq<char>>) -> spec_fn(TeamAgent) -> bool {
    |a: TeamAgent| starting.contains(a.slot_id@)
}

fn first_starting(roster: &[TeamAgent], starting: &[String]) -> (r: Option<TeamAgent>)
    ensures
        r == first(roster@, is_starting(texts(starting@))),
{
    let ghost p = is_starting(texts(starting@));
    let mut i: usize = 0;
    while i < roster.len()
        invariant
            i <= roster@.len(),
            p == is_starting(texts(starting@)),
            forall|k: int| 0 <= k < i ==> !p(#[trigger] roster@[k]),
        decreases roster@.len() - i,
    {
        if text_listed(starting, roster[i].slot_id.as_str()) {
            proof {
                lemma_is_first(roster@, p, i as int);
            }
            return Some(roster[i].clone());
        }
        i = i + 1;
    }
    proof {
        lemma_no_first(roster@, p);
    }
    None
}

/// What becomes of a request for the options of a conversation of a team.
pub open spec fn options_outcome(
    team: Seq<char>,
    agents: Seq<TeamAgent>,
    members: Option<Seq<EngagementMember>>,
    conversation: Seq<char>,
    starting: Seq<Seq<char>>,
    r: Result<TeamAgent, TeamError>,
) -> bool {
    match resolved(agents, members, MemberKey::Conversation, conversation) {
        Err(missing) => r matches Err(TeamError::AgentNotFound(x)) && x@ == missing,
        Ok((a, _)) => if starting.contains(a.slot_id@) {
            r matches Err(e) && is_starting_error(e, team, a)
        } else {
            r == Ok::<TeamAgent, TeamError>(a)
        },
    }
}

impl TeamSessionService {
    /// The member of an owned team whose options are read or changed. While its
    /// runtime starts they are not to be had. `starting` are the slots whose
    /// runtimes are starting.
    pub fn get_conversation_config_options(
        team: Option<&Team>,
        user_id: &str,
        team_id: &str,
        members: Option<&[EngagementMember]>,
        conversation_id: &str,
        starting: &[String],
    ) -> (r: Result<TeamAgent, TeamError>)
        ensures
            if !owned(team, user_id@, team_id@) {
                r matches Err(e) && not_found(e, team_id@)
            } else {
                options_outcome(
                    team_id@,
                    (team->0).agents@,
                    member_list(members),
                    conversation_id@,
                    texts(starting@),
                    r,
                )
            },
    {
        let team = match load_owned_team(team, user_id, team_id) {
            Ok(t) => t,
            Err(e) => return Err(e),
        };
        let agents = team.agents.as_slice();
        match resolve_runtime_agent(agents, members, MemberKey::Conversation, conversation_id) {
            Ok((member, _)) => if text_listed(starting, member.slot_id.as_str()) {
                Err(member_runtime_starting_error(team_id, &member))
            } else {
                Ok(member)
            },
            Err(e) => Err(e),
        }
    }
}

/// The members that a change of the team's mode waits for: those of the session
/// that runs, or the template where none runs.
pub open spec fn mode_roster(live: Option<Seq<TeamAgent>>, template: Seq<TeamAgent>) -> Seq<
    TeamAgent,
> {
    match live {
        Some(roster) => roster,
        None => template,
    }
}

pub open spec fn live_roster(live: Option<&[TeamAgent]>) -> Option<Seq<TeamAgent>> {
    match live {
        Some(roster) => Some(roster@),
        None => None,
    }
}

/// The members that are looked at before the mode of a team changes. A running
/// session has slots of its own, so the template would not tell who is starting.
pub fn global_mode_roster<'a>(live: Option<&'a [TeamAgent]>, template: &'a [TeamAgent]) -> (r:
    &'a [TeamAgent])
    ensures
        r@ == mode_roster(live_roster(live), template@),
{
    match live {
        Some(roster) => roster,
        None => template,
    }
}

/// What a change of an option of a member comes to: the model that has to be
/// stored once the runtime has accepted the change, if the option is the model.
pub open spec fn config_outcome(
    team: Seq<char>,
    member: TeamAgent,
    options: Seq<ConfigOption>,
    option_id: Seq<char>,
    value: Seq<char>,
    roster: Seq<TeamAgent>,
    starting: Seq<Seq<char>>,
    r: Result<Option<String>, TeamError>,
) -> bool {
    let global_mode = member.role == TeammateRole::Lead && any(
        options,
        is_named(option_id, "mode"@),
    );
    let blocked = first(roster, is_starting(starting));
    if starting.contains(member.slot_id@) {
        r matches Err(e) && is_starting_error(e, team, member)
    } else if global_mode && blocked is Some {
        r matches Err(e) && is_starting_error(e, team, blocked->0)
    } else {
        r matches Ok(model) && opt_text(model) == if any(options, is_named(option_id, "model"@))
            && !is_blank(value) {
            Some(trimmed(value))
        } else {
            None
        }
    }
}

impl TeamSessionService {
    /// Checks the change of an option of a conversation of an owned team. A member
    /// that is starting takes none. The mode of the lead is the mode of the team,
    /// and waits for every member that is starting; `live` are the members of the
    /// session, where one runs. A model that is switched has to be stored as it was
    /// asked for.
    pub fn set_conversation_config_option(
        team: Option<&Team>,
        user_id: &str,
        team_id: &str,
        members: Option<&[EngagementMember]>,
        conversation_id: &str,
        options: &[ConfigOption],
        option_id: &str,
        value: &str,
        live: Option<&[TeamAgent]>,
        starting: &[String],
    ) -> (r: Result<Option<String>, TeamError>)
        ensures
            if !owned(team, user_id@, team_id@) {
                r matches Err(e) && not_found(e, team_id@)
            } else {
                match resolved(
                    (team->0).agents@,
                    member_list(members),
                    MemberKey::Conversation,
                    conversation_id@,
                ) {
                    Err(missing) => r matches Err(TeamError::AgentNotFound(x)) && x@ == missing,
                    Ok((member, _)) => config_outcome(
                        team_id@,
                        member,
                        options@,
                        option_id@,
                        value@,
                        mode_roster(live_roster(live), (team->0).agents@),
                        texts(starting@),
                        r,
                    ),
                }
            },
    {
        let member = match TeamSessionService::get_conversation_config_options(
            team,
            user_id,
            team_id,
            members,
            conversation_id,
            starting,
        ) {
            Ok(member) => member,
            Err(e) => return Err(e),
        };
        let team = match load_owned_team(team, user_id, team_id) {
            Ok(t) => t,
            Err(e) => return Err(e),
        };
        if member.role == TeammateRole::Lead && names_option(options, option_id, "mode") {
            let roster = global_mode_roster(live, team.agents.as_slice());
            if let Some(blocked) = first_starting(roster, starting) {
                return Err(member_runtime_starting_error(team_id, &blocked));
            }
        }
        if names_option(options, option_id, "model") {
            let model = trim(value);
            proof {
                lemma_trimmed_empty(value@);
            }
            if !model.is_empty() {
                return Ok(Some(model.to_owned()));
            }
        }
        Ok(None)
    }
}

impl TeamSessionService {
    /// Checks that the mode of an owned team can change: no member is starting.
    /// `live` are the members of the session, where one runs.
    pub fn set_session_mode(
        team: Option<&Team>,
        user_id: &str,
        team_id: &str,
        live: Option<&[TeamAgent]>,
        starting: &[String],
    ) -> (r: Result<(), TeamError>)
        ensures
            if !owned(team, user_id@, team_id@) {
                r matches Err(e) && not_found(e, team_id@)
            } else {
                match first(
                    mode_roster(live_roster(live), (team->0).agents@),
                    is_starting(texts(starting@)),
                ) {
                    Some(a) => r matches Err(e) && is_starting_error(e, team_id@, a),
                    None => r is Ok,
                }
            },
    {
        let team = match load_owned_team(team, user_id, team_id) {
            Ok(t) => t,
            Err(e) => return Err(e),
        };
        let roster = global_mode_roster(live, team.agents.as_slice());
        match first_starting(roster, starting) {
            Some(blocked) => Err(member_runtime_starting_error(team_id, &blocked)),
            None => Ok(()),
        }
    }
}

/// The runtime of the member has not refused the mode. `applied` tells of each
/// member what its runtime did, `None` where none runs.
pub open spec fn takes_seed(applied: Seq<Option<bool>>, i: int) -> bool {
    applied[i] != Some(false)
}

/// The conversations of the members whose next runtime starts in the new mode.
pub open spec fn seeded(agents: Seq<TeamAgent>, applied: Seq<Option<bool>>) -> Seq<Seq<char>>
    decreases agents.len(),
{
    if agents.len() == 0 {
        Seq::empty()
    } else {
        let rest = seeded(agents.drop_last(), applied);
        if takes_seed(applied, agents.len() - 1) {
            rest.push(agents.last().conversation_id@)
        } else {
            rest
        }
    }
}

/// The conversations in which a new mode is stored for the next runtime: those
/// of all members but the ones whose runtime runs and has refused it.
pub fn mode_seeds(agents: &[TeamAgent], applied: &[Option<bool>]) -> (r: Vec<String>)
    requires
        agents@.len() == applied@.len(),
    ensures
        texts(r@) == seeded(agents@, applied@),
{
    let mut r: Vec<String> = Vec::new();
    let mut i: usize = 0;
    while i < agents.len()
        invariant
            i <= agents@.len(),
            agents@.len() == applied@.len(),
            texts(r@) == seeded(agents@.take(i as int), applied@),
        decreases agents@.len() - i,
    {
        let ghost before = r@;
        let stored = match applied[i] {
            Some(ok) => ok,
            None => true,
        };
        if stored {
            r.push(agents[i].conversation_id.clone());
        }
        proof {
            assert(agents@.take(i + 1).drop_last() =~= agents@.take(i as int));
            if stored {
                assert(texts(r@) =~= texts(before).push(agents@[i as int].conversation_id@));
            }
        }
        i = i + 1;
    }
    assert(agents@.take(i as int) =~= agents@);
    r
}

/// A mode is stored for a member exactly where its runtime has not refused it.
pub proof fn law_refused_mode_is_not_stored(
    agents: Seq<TeamAgent>,
    applied: Seq<Option<bool>>,
    i: int,
)
    requires
        agents.len() == applied.len(),
        0 <= i < agents.len(),
        forall|j: int|
            0 <= j < agents.len() && j != i ==> (#[trigger] agents[j]).conversation_id@
                != agents[i].conversation_id@,
    ensures
        seeded(agents, applied).contains(agents[i].conversation_id@) <==> applied[i] is None
            || applied[i] == Some(true),
{
    lemma_seeded(agents, applied, agents[i].conversation_id@);
    if takes_seed(applied, i) {
        assert(agents[i].conversation_id@ == agents[i].conversation_id@);
    }
    if let Some(took) = applied[i] {
        assert(takes_seed(applied, i) <==> took);
    }
}

proof fn lemma_seeded(agents: Seq<TeamAgent>, applied: Seq<Option<bool>>, id: Seq<char>)
    ensures
        seeded(agents, applied).contains(id) <==> exists|j: int|
            0 <= j < agents.len() && (#[trigger] agents[j]).conversation_id@ == id && takes_seed(
                applied,
                j,
            ),
    decreases agents.len(),
{
    if agents.len() > 0 {
        let front = agents.drop_last();
        let rest = seeded(front, applied);
        let whole = seeded(agents, applied);
        let last = agents.len() - 1;
        lemma_seeded(front, applied, id);
        if whole.contains(id) {
            let k = choose|k: int| 0 <= k < whole.len() && whole[k] == id;
            if k < rest.len() {
                assert(rest[k] == id);
                let j = choose|j: int|
                    0 <= j < front.len() && (#[trigger] front[j]).conversation_id@ == id
                        && takes_seed(applied, j);
                assert(agents[j].conversation_id@ == id);
            } else {
                assert(agents[last].conversation_id@ == id);
            }
        }
        if exists|j: int|
            0 <= j < agents.len() && (#[trigger] agents[j]).conversation_id@ == id && takes_seed(
                applied,
                j,
            ) {
            let j = choose|j: int|
                0 <= j < agents.len() && (#[trigger] agents[j]).conversation_id@ == id
                    && takes_seed(applied, j);
            if j < front.len() {
                assert(front[j].conversation_id@ == id);
                let k = choose|k: int| 0 <= k < rest.len() && rest[k] == id;
                assert(whole[k] == id);
            } else {
                assert(whole[rest.len() as int] == id);
            }
        }
    }
}

/// What is to be done with the attachments of a message.
#[derive(Debug)]
pub enum Attachments {
    /// There are none: the message goes out with this text.
    Nothing(String),
    /// They have to be resolved.
    Resolve,
}

/// Checks the attachments of a message. Without any, no project is needed.
pub fn resolve_message_attachments(
    content: &str,
    files: Option<usize>,
    projects_available: bool,
) -> (r: Result<Attachments, TeamError>)
    ensures
        if files is None || files == Some(0usize) {
            r matches Ok(Attachments::Nothing(text)) && text@ == content@
        } else if projects_available {
            r matches Ok(Attachments::Resolve)
        } else {
            r matches Err(TeamError::InvalidRequest(x)) && x@
                == "project service unavailable; cannot resolve file attachments"@
        },
{
    let count: usize = match files {
        Some(n) => n,
        None => 0,
    };
    if count == 0 {
        Ok(Attachments::Nothing(content.to_owned()))
    } else if projects_available {
        Ok(Attachments::Resolve)
    } else {
        Err(
            TeamError::InvalidRequest(
                "project service unavailable; cannot resolve file attachments".to_owned(),
            ),
        )
    }
}

/// Why a tool of a team cannot be used.
#[derive(Debug, Clone, Copy, PartialEq, Eq, Structural)]
pub enum TeamToolErrorCode {
    RuntimeContextMissing,
    ConversationNotFound,
    PermissionDenied,
    TeamNotFound,
}

#[derive(Debug)]
pub struct TeamToolError {
    pub code: TeamToolErrorCode,
    pub message: String,
}

/// Whose a conversation is, the team that it works for, and as what.
#[derive(Debug)]
pub struct TeamBinding {
    pub user_id: String,
    pub team_id: Option<String>,
    pub slot_id: Option<String>,
    pub role: Option<String>,
}

/// How a conversation is bound to the team for which it works.
#[derive(Debug)]
pub struct BoundTeam {
    pub team_id: String,
    pub slot_id: Option<String>,
    pub role: Option<String>,
}

/// The team in which a conversation may use tools; `None` where it works for
/// none.
pub open spec fn tool_context(
    user: Seq<char>,
    lookup: Result<Option<TeamBinding>, String>,
    r: Result<Option<BoundTeam>, TeamToolError>,
) -> bool {
    match lookup {
        Err(text) => r matches Err(e) && e.code == TeamToolErrorCode::RuntimeContextMissing
            && e.message@ == text@,
        Ok(None) => r matches Err(e) && e.code == TeamToolErrorCode::ConversationNotFound
            && e.message@ == "conversation not found"@,
        Ok(Some(b)) => if b.user_id@ != user {
            r matches Err(e) && e.code == TeamToolErrorCode::PermissionDenied && e.message@
                == "conversation does not belong to user"@
        } else {
            r matches Ok(bound) && match b.team_id {
                None => bound is None,
                Some(team_id) => bound == Some(
                    BoundTeam { team_id, slot_id: b.slot_id, role: b.role },
                ),
            }
        },
    }
}

impl TeamSessionService {
    /// Finds the team in which a conversation of the user may use tools. A
    /// conversation of another user is refused before anything is said of its
    /// team.
    pub fn resolve_team_tool_context(
        user_id: &str,
        lookup: Result<Option<TeamBinding>, String>,
    ) -> (r: Result<Option<BoundTeam>, TeamToolError>)
        ensures
            tool_context(user_id@, lookup, r),
    {
        match lookup {
            Err(text) => Err(
                TeamToolError { code: TeamToolErrorCode::RuntimeContextMissing, message: text },
            ),
            Ok(None) => Err(
                TeamToolError {
                    code: TeamToolErrorCode::ConversationNotFound,
                    message: "conversation not found".to_owned(),
                },
            ),
            Ok(Some(binding)) => if same_text(binding.user_id.as_str(), user_id) {
                match binding.team_id {
                    Some(team_id) => Ok(
                        Some(
                            BoundTeam { team_id, slot_id: binding.slot_id, role: binding.role },
                        ),
                    ),
                    None => Ok(None),
                }
            } else {
                Err(
                    TeamToolError {
                        code: TeamToolErrorCode::PermissionDenied,
                        message: "conversation does not belong to user".to_owned(),
                    },
                )
            },
        }
    }
}

fn no_team() -> (r: TeamToolError)
    ensures
        r.code == TeamToolErrorCode::TeamNotFound,
        r.message@ == "team not found"@,
{
    TeamToolError { code: TeamToolErrorCode::TeamNotFound, message: "team not found".to_owned() }
}

/// The team whose tools the conversation may use. A team that is gone, or that
/// belongs to another user, is not found.
pub fn tool_team<'a>(team: Option<&'a Team>, user_id: &str, team_id: &str) -> (r: Result<
    &'a Team,
    TeamToolError,
>)
    ensures
        match r {
            Ok(t) => owned(team, user_id@, team_id@) && team == Some(t),
            Err(e) => !owned(team, user_id@, team_id@) && e.code == TeamToolErrorCode::TeamNotFound
                && e.message@ == "team not found"@,
        },
{
    match load_owned_team(team, user_id, team_id) {
        Ok(t) => Ok(t),
        Err(_) => Err(no_team()),
    }
}

/// How the calls of tools reach the team.
#[derive(Debug, Clone, Copy, PartialEq, Eq, Structural)]
pub enum TeamToolTransport {
    CliAssumed,
}

/// What a conversation is told of the team in which it may use tools.
#[derive(Debug)]
pub struct TeamToolContextResponse {
    pub in_team: bool,
    pub conversation_id: String,
    pub team_id: Option<String>,
    pub team_name: Option<String>,
    pub slot_id: Option<String>,
    pub role: Option<TeammateRole>,
    pub agent_name: Option<String>,
    pub transport: Option<TeamToolTransport>,
    pub allowed_tools: Vec<String>,
}

/// On whose behalf a tool runs.
#[derive(Debug)]
pub struct TeamToolContext {
    pub team_id: String,
    pub caller_slot_id: String,
    pub caller_role: TeammateRole,
    pub user_id: String,
    pub conversation_id: String,
    pub transport: TeamToolTransport,
}

/// What a conversation is told, and what its calls of tools run with.
#[derive(Debug)]
pub struct ResolvedTeamToolContext {
    pub response: TeamToolContextResponse,
    pub context: Option<TeamToolContext>,
}

impl ResolvedTeamToolContext {
    /// What is told agrees with what calls run with: tools run exactly for a
    /// conversation that is in a team, and on behalf of the agent, the team and
    /// the conversation that it was told of.
    pub open spec fn agrees(self) -> bool {
        match self.context {
            None => !self.response.in_team && self.response.team_id is None
                && self.response.slot_id is None && self.response.role is None
                && self.response.transport is None && self.response.allowed_tools@.len() == 0,
            Some(x) => self.response.in_team && opt_text(self.response.team_id) == Some(x.team_id@)
                && opt_text(self.response.slot_id) == Some(x.caller_slot_id@) && self.response.role
                == Some(x.caller_role) && self.response.transport == Some(x.transport)
                && self.response.conversation_id@ == x.conversation_id@,
        }
    }
}

/// The answer to a conversation that works for no team.
pub fn no_team_context(conversation_id: &str) -> (r: ResolvedTeamToolContext)
    ensures
        r.context is None,
        !r.response.in_team,
        r.response.conversation_id@ == conversation_id@,
        r.response.team_id is None,
        r.response.team_name is None,
        r.response.slot_id is None,
        r.response.role is None,
        r.response.agent_name is None,
        r.response.transport is None,
        r.response.allowed_tools@.len() == 0,
        r.agrees(),
{
    ResolvedTeamToolContext {
        response: TeamToolContextResponse {
            in_team: false,
            conversation_id: conversation_id.to_owned(),
            team_id: None,
            team_name: None,
            slot_id: None,
            role: None,
            agent_name: None,
            transport: None,
            allowed_tools: Vec::new(),
        },
        context: None,
    }
}

/// The answer to a conversation in which an agent of a team works. The name of
/// the team is `None` where the team does not exist; `role_tools` are the tools
/// that the agent's role may use.
pub fn team_context(
    user_id: &str,
    conversation_id: &str,
    team_id: &str,
    team_name: Option<&str>,
    agent: &TeamAgent,
    role_tools: Vec<String>,
) -> (r: Result<ResolvedTeamToolContext, TeamToolError>)
    ensures
        match team_name {
            None => r matches Err(e) && e.code == TeamToolErrorCode::TeamNotFound && e.message@
                == "team not found"@,
            Some(name) => r matches Ok(c) && c.response.in_team && c.response.conversation_id@
                == conversation_id@ && opt_text(c.response.team_id) == Some(team_id@) && opt_text(
                c.response.team_name,
            ) == Some(name@) && c.response.role == Some(agent.role) && c.response.agent_name
                == Some(agent.name) && c.response.allowed_tools == role_tools
                && c.response.transport == Some(TeamToolTransport::CliAssumed) && (
            c.context matches Some(x) && x.caller_slot_id == agent.slot_id && c.response.slot_id
                == Some(x.caller_slot_id) && x.caller_role == agent.role && x.team_id@ == team_id@
                && x.user_id@ == user_id@ && x.conversation_id@ == conversation_id@ && x.transport
                == TeamToolTransport::CliAssumed) && c.agrees(),
        },
{
    match team_name {
        None => Err(no_team()),
        Some(name) => Ok(
            ResolvedTeamToolContext {
                response: TeamToolContextResponse {
                    in_team: true,
                    conversation_id: conversation_id.to_owned(),
                    team_id: Some(team_id.to_owned()),
                    team_name: Some(name.to_owned()),
                    slot_id: Some(agent.slot_id.clone()),
                    role: Some(agent.role),
                    agent_name: Some(agent.name.clone()),
                    transport: Some(TeamToolTransport::CliAssumed),
                    allowed_tools: role_tools,
                },
                context: Some(
                    TeamToolContext {
                        team_id: team_id.to_owned(),
                        caller_slot_id: agent.slot_id.clone(),
                        caller_role: agent.role,
                        user_id: user_id.to_owned(),
                        conversation_id: conversation_id.to_owned(),
                        transport: TeamToolTransport::CliAssumed,
                    },
                ),
            },
        ),
    }
}

/// A member of the team is starting.
pub open spec fn starts(roster: Seq<TeamAgent>, starting: Seq<Seq<char>>) -> bool {
    exists|i: int| 0 <= i < roster.len() && starting.contains((#[trigger] roster[i]).slot_id@)
}

proof fn lemma_first_starting(roster: Seq<TeamAgent>, starting: Seq<Seq<char>>)
    ensures
        match first(roster, is_starting(starting)) {
            Some(a) => starts(roster, starting) && roster.contains(a) && starting.contains(
                a.slot_id@,
            ),
            None => !starts(roster, starting),
        },
{
    let p = is_starting(starting);
    crate::search::lemma_first_index(roster, p);
    match crate::search::first_index(roster, p) {
        Some(i) => {
            assert(starting.contains(roster[i].slot_id@));
            assert(roster.contains(roster[i]));
        },
        None => {
            assert forall|i: int| 0 <= i < roster.len() implies !starting.contains(
                (#[trigger] roster[i]).slot_id@,
            ) by {
                assert(!p(roster[i]));
            }
        },
    }
}

/// The option is one of those, and is the one that goes by the name: it has the name
/// as its category or as its id.
pub open spec fn goes_by(options: Seq<ConfigOption>, id: Seq<char>, name: Seq<char>) -> bool {
    exists|i: int|
        {
            &&& 0 <= i < options.len()
            &&& (#[trigger] options[i]).id@ == id
            &&& (options[i].category is Some && options[i].category->0@ == name) || id == name
        }
}

/// An option changes unless its member is starting, or the lead would change the mode
/// while any member of the team is. A change of the model, and no other change, hands
/// the value on, without white space around it and unless it is blank.
pub proof fn law_option_waits_for_who_is_starting(
    team: Seq<char>,
    member: TeamAgent,
    options: Seq<ConfigOption>,
    option_id: Seq<char>,
    value: Seq<char>,
    roster: Seq<TeamAgent>,
    starting: Seq<Seq<char>>,
    r: Result<Option<String>, TeamError>,
)
    requires
        config_outcome(team, member, options, option_id, value, roster, starting, r),
    ensures
        r is Ok <==> !starting.contains(member.slot_id@) && !(member.role == TeammateRole::Lead
            && goes_by(options, option_id, "mode"@) && starts(roster, starting)),
        r matches Err(e) ==> (e matches TeamError::MemberRuntimeStarting {
            team_id,
            slot_id,
            conversation_id,
        } && team_id@ == team && starting.contains(slot_id@)),
        r is Ok && goes_by(options, option_id, "model"@) && !is_blank(value) ==> (
        r->Ok_0 matches Some(m) && m@ == trimmed(value)),
        r is Ok && (!goes_by(options, option_id, "model"@) || is_blank(value)) ==> r->Ok_0 is None,
{
    lemma_first_starting(roster, starting);
    lemma_goes_by(options, option_id, "mode"@);
    lemma_goes_by(options, option_id, "model"@);
}

proof fn lemma_goes_by(options: Seq<ConfigOption>, id: Seq<char>, name: Seq<char>)
    ensures
        any(options, is_named(id, name)) <==> goes_by(options, id, name),
{
    let p = is_named(id, name);
    if any(options, p) {
        let i = choose|i: int| 0 <= i < options.len() && p(#[trigger] options[i]);
        assert(options[i].id@ == id);
    }
    if goes_by(options, id, name) {
        let i = choose|i: int|
            {
                &&& 0 <= i < options.len()
                &&& (#[trigger] options[i]).id@ == id
                &&& (options[i].category is Some && options[i].category->0@ == name) || id == name
            };
        assert(p(options[i]));
    }
}

/// The mode of a team changes exactly while none of the members that run, or of the
/// template where none do, is starting.
pub proof fn law_mode_waits_for_who_is_starting(
    live: Option<Seq<TeamAgent>>,
    template: Seq<TeamAgent>,
    starting: Seq<Seq<char>>,
)
    ensures
        live is Some ==> (first(mode_roster(live, template), is_starting(starting)) is Some
            <==> starts(live->0, starting)),
        live is None ==> (first(mode_roster(live, template), is_starting(starting)) is Some
            <==> starts(template, starting)),
        first(mode_roster(live, template), is_starting(starting)) matches Some(a)
            ==> starting.contains(a.slot_id@),
{
    lemma_first_starting(mode_roster(live, template), starting);
}

/// The options of a member are shown exactly where it is not starting.
pub proof fn law_options_are_shown_unless_starting(
    team: Seq<char>,
    agents: Seq<TeamAgent>,
    members: Option<Seq<EngagementMember>>,
    conversation: Seq<char>,
    starting: Seq<Seq<char>>,
    r: Result<TeamAgent, TeamError>,
)
    requires
        options_outcome(team, agents, members, conversation, starting, r),
    ensures
        r matches Ok(a) ==> a.conversation_id@ == conversation && !starting.contains(a.slot_id@),
        r matches Err(TeamError::MemberRuntimeStarting { team_id, slot_id, conversation_id })
            ==> team_id@ == team && conversation_id@ == conversation && starting.contains(slot_id@),
        members is None ==> (r matches Err(TeamError::AgentNotFound(_)) <==> forall|i: int|
            0 <= i < agents.len() ==> (#[trigger] agents[i]).conversation_id@ != conversation),
        members is Some && members->0.len() > 0 && (forall|i: int|
            0 <= i < members->0.len() ==> (#[trigger] members->0[i]).conversation_id@
                != conversation) ==> (r matches Err(TeamError::AgentNotFound(x)) && x@
            == conversation),
        r matches Err(e) ==> e is MemberRuntimeStarting || e is AgentNotFound,
{
    let p = crate::roster::agent_has(MemberKey::Conversation, conversation);
    crate::search::lemma_first_index(agents, p);
    if let Some(ms) = members {
        if ms.len() > 0 {
            let q = crate::roster::member_has(MemberKey::Conversation, conversation);
            crate::search::lemma_first_index(ms, q);
            if let Some(k) = crate::search::first_index(ms, q) {
                assert(ms[k].conversation_id@ == conversation);
                let at = crate::roster::agent_has(MemberKey::Slot, ms[k].template_slot@);
                crate::search::lemma_first_index(agents, at);
            }
        }
    } else {
        match crate::search::first_index(agents, p) {
            Some(i) => assert(agents[i].conversation_id@ == conversation),
            None => {
                assert forall|i: int| 0 <= i < agents.len() implies (
                #[trigger] agents[i]).conversation_id@ != conversation by {
                    assert(!p(agents[i]));
                }
            },
        }
    }
}

/// A tool call acts for the user of its conversation and for nobody else, in the team
/// to which the conversation is bound.
pub proof fn law_tool_acts_for_its_user(
    user: Seq<char>,
    lookup: Result<Option<TeamBinding>, String>,
    r: Result<Option<BoundTeam>, TeamToolError>,
)
    requires
        tool_context(user, lookup, r),
    ensures
        r is Ok <==> (lookup matches Ok(Some(b)) && b.user_id@ == user),
        r matches Ok(Some(bound)) ==> (lookup matches Ok(Some(b)) && b.team_id == Some(
            bound.team_id,
        ) && b.slot_id == bound.slot_id && b.role == bound.role),
        r matches Ok(None) ==> (lookup matches Ok(Some(b)) && b.team_id is None),
        lookup is Ok && lookup->Ok_0 is Some && lookup->Ok_0->0.user_id@ != user ==> (
        r matches Err(e) && e.code == TeamToolErrorCode::PermissionDenied),
        lookup matches Ok(None) ==> (r matches Err(e) && e.code
            == TeamToolErrorCode::ConversationNotFound),
        lookup is Err ==> (r matches Err(e) && e.code == TeamToolErrorCode::RuntimeContextMissing),
{
}

/// The members that run are those that were given, where a session runs.
pub proof fn law_running_members_are_those_given(live: Option<&[TeamAgent]>)
    ensures
        live_roster(live) is Some <==> live is Some,
        live is Some ==> live_roster(live) == Some(live->0@),
{
}

/// The conversations for which a mode is stored come in the order of the roster, one for
/// each member whose runtime took the mode or does not run.
pub proof fn law_seeds_follow_the_roster(agents: Seq<TeamAgent>, applied: Seq<Option<bool>>)
    requires
        agents.len() == applied.len(),
    ensures
        seeded(agents, applied) == Seq::new(agents.len(), |i: int| i).filter(
            took_it(applied),
        ).map_values(|i: int| agents[i].conversation_id@),
{
    lemma_seeds(agents, applied, agents.len());
    assert(agents.take(agents.len() as int) =~= agents);
}

/// The runtime at the position took the mode, or there is none.
pub open spec fn took_it(applied: Seq<Option<bool>>) -> spec_fn(int) -> bool {
    |i: int| applied[i] is None || applied[i]->0
}

proof fn lemma_seeds(agents: Seq<TeamAgent>, applied: Seq<Option<bool>>, n: nat)
    requires
        n <= agents.len() == applied.len(),
    ensures
        seeded(agents.take(n as int), applied) == Seq::new(n, |i: int| i).filter(
            took_it(applied),
        ).map_values(|i: int| agents[i].conversation_id@),
    decreases n,
{
    reveal(Seq::filter);
    let f = |i: int| agents[i].conversation_id@;
    let p = took_it(applied);
    let part = agents.take(n as int);
    let all = Seq::new(n, |i: int| i);
    if n == 0 {
        assert(all.filter(p) =~= Seq::<int>::empty());
    } else {
        let m = (n - 1) as nat;
        lemma_seeds(agents, applied, m);
        let front = Seq::new(m, |i: int| i);
        assert(part.drop_last() =~= agents.take(m as int));
        assert(all.drop_last() =~= front);
        assert(all.last() == m);
        assert(front.filter(p).push(m as int).map_values(f) =~= front.filter(p).map_values(f).push(
            f(m as int),
        ));
        if let Some(took) = applied[m as int] {
            assert(takes_seed(applied, m as int) <==> took);
        }
    }
    assert(seeded(part, applied) =~= all.filter(p).map_values(f));
}

} // verus!
