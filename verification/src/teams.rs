//! Teams, the engagements that bind them to projects, and the tasks that are
//! delegated to them.
use crate::error::TeamError;
use crate::json::{can_take_members, members, set_text, takes_members, Member};
use crate::roster::TeamAgent;
use crate::search::{any, first_index, lemma_is_first, lemma_no_first};
use crate::sessions::TeamSessionService;
use crate::text::{
    blank, first_occurs_at, is_blank, occurs_at, opt_str, opt_text, same_text, split_at_first,
};
use vstd::prelude::*;

verus! {

/// What stands in place of a project where there is none.
pub const TEAM_NO_PROJECT_SENTINEL: &'static str = "__none__";

/// The end of the block that a delegation puts in front of its message.
pub const DELEGATE_ENVELOPE_END_MARKER: &'static str = "[[/AION_DELEGATE]]";

/// A team.
#[derive(Debug)]
pub struct Team {
    pub id: String,
    pub user_id: String,
    pub name: String,
    pub workspace: String,
    pub workspace_mode: String,
    pub agents: Vec<TeamAgent>,
    pub lead_agent_id: Option<String>,
    pub session_mode: Option<String>,
    pub agents_version: String,
    pub created_at: i64,
    pub updated_at: i64,
    pub project_id: Option<String>,
    pub folder_id: Option<String>,
}

/// The team was found, is the one that was asked for, and belongs to the user.
pub open spec fn owned(team: Option<&Team>, user: Seq<char>, id: Seq<char>) -> bool {
    team matches Some(t) && t.id@ == id && t.user_id@ == user
}

/// The team, where it belongs to the user. A team of another user is answered
/// like one that does not exist.
pub fn load_owned_team<'a>(team: Option<&'a Team>, user_id: &str, team_id: &str) -> (r: Result<
    &'a Team,
    TeamError,
>)
    ensures
        match r {
            Ok(t) => owned(team, user_id@, team_id@) && team == Some(t),
            Err(e) => !owned(team, user_id@, team_id@) && (e matches TeamError::TeamNotFound(x)
                && x@ == team_id@),
        },
{
    match team {
        Some(t) => if same_text(t.id.as_str(), team_id) && same_text(
            t.user_id.as_str(),
            user_id,
        ) {
            Ok(t)
        } else {
            Err(TeamError::TeamNotFound(team_id.to_owned()))
        },
        None => Err(TeamError::TeamNotFound(team_id.to_owned())),
    }
}

/// Where the workspace of a new team comes from.
#[derive(Debug)]
pub enum WorkspaceChoice {
    /// The workspace folder of this project.
    Project(String),
    /// This path, once it was checked.
    Path(String),
    /// The conversation of the lead.
    Leader,
}

impl WorkspaceChoice {
    /// The name of the source.
    pub open spec fn text(self) -> Seq<char> {
        match self {
            WorkspaceChoice::Project(_) => "project_derived"@,
            WorkspaceChoice::Path(_) => "user_supplied"@,
            WorkspaceChoice::Leader => "auto_from_leader"@,
        }
    }

    pub fn as_str(&self) -> (r: &'static str)
        ensures
            r@ == self.text(),
    {
        match self {
            WorkspaceChoice::Project(_) => "project_derived",
            WorkspaceChoice::Path(_) => "user_supplied",
            WorkspaceChoice::Leader => "auto_from_leader",
        }
    }
}

/// A project decides, then a path that is not empty, then the lead.
pub open spec fn chooses(
    project: Option<Seq<char>>,
    workspace: Option<Seq<char>>,
    r: WorkspaceChoice,
) -> bool {
    match (project, workspace) {
        (Some(p), _) => r matches WorkspaceChoice::Project(x) && x@ == p,
        (None, Some(w)) if w.len() > 0 => r matches WorkspaceChoice::Path(x) && x@ == w,
        _ => r is Leader,
    }
}

/// The agent would come from a conversation that exists.
pub open spec fn reuses_conversation() -> spec_fn(Option<String>) -> bool {
    |id: Option<String>| id matches Some(t) && !is_blank(t@)
}

/// What a request for a new team is answered.
pub open spec fn team_request_answered(
    conversations: Seq<Option<String>>,
    project: Option<Seq<char>>,
    workspace: Option<Seq<char>>,
    r: Result<WorkspaceChoice, TeamError>,
) -> bool {
    if conversations.len() == 0 {
        r matches Err(TeamError::InvalidRequest(x)) && x@ == "at least one agent is required"@
    } else if any(conversations, reuses_conversation()) {
        r matches Err(TeamError::InvalidRequest(x)) && x@
            == "creating Team agents from existing conversations are no longer supported; omit agents[].conversation_id"@
    } else {
        r matches Ok(choice) && chooses(project, workspace, choice)
    }
}

impl TeamSessionService {
    /// Checks the request for a new team and says where its workspace comes from.
    /// `conversation_ids` are those that the request names for its agents.
    pub fn create_team(
        conversation_ids: &[Option<String>],
        project_id: Option<&str>,
        workspace: Option<&str>,
    ) -> (r: Result<WorkspaceChoice, TeamError>)
        ensures
            if conversation_ids@.len() == 0 {
                r matches Err(TeamError::InvalidRequest(x)) && x@ == "at least one agent is required"@
            } else if any(conversation_ids@, reuses_conversation()) {
                r matches Err(TeamError::InvalidRequest(x)) && x@
                    == "creating Team agents from existing conversations are no longer supported; omit agents[].conversation_id"@
            } else {
                r matches Ok(choice) && chooses(opt_str(project_id), opt_str(workspace), choice)
            },
            team_request_answered(
                conversation_ids@,
                opt_str(project_id),
                opt_str(workspace),
                r,
            ),
    {
        if conversation_ids.len() == 0 {
            return Err(TeamError::InvalidRequest("at least one agent is required".to_owned()));
        }
        let ghost p = reuses_conversation();
        let mut i: usize = 0;
        while i < conversation_ids.len()
            invariant
                i <= conversation_ids@.len(),
                p == reuses_conversation(),
                forall|j: int| 0 <= j < i ==> !p(#[trigger] conversation_ids@[j]),
            decreases conversation_ids@.len() - i,
        {
            if let Some(id) = &conversation_ids[i] {
                if !blank(id.as_str()) {
                    assert(p(conversation_ids@[i as int]));
                    return Err(
                        TeamError::InvalidRequest(
                            "creating Team agents from existing conversations are no longer supported; omit agents[].conversation_id".to_owned(),
                        ),
                    );
                }
            }
            i = i + 1;
        }
        match project_id {
            Some(project) => Ok(WorkspaceChoice::Project(project.to_owned())),
            None => match workspace {
                Some(path) => if path.is_empty() {
                    Ok(WorkspaceChoice::Leader)
                } else {
                    Ok(WorkspaceChoice::Path(path.to_owned()))
                },
                None => Ok(WorkspaceChoice::Leader),
            },
        }
    }
}

/// A new team, as it is stored.
pub fn new_team(
    team_id: &str,
    user_id: &str,
    name: &str,
    workspace: &str,
    agents: Vec<TeamAgent>,
    lead_agent_id: Option<String>,
    project_id: Option<String>,
    folder_id: Option<String>,
    now: i64,
) -> (r: Team)
    ensures
        r.id@ == team_id@,
        r.user_id@ == user_id@,
        r.name@ == name@,
        r.workspace@ == workspace@,
        r.workspace_mode@ == "shared"@,
        r.agents == agents,
        r.lead_agent_id == lead_agent_id,
        r.session_mode is None,
        r.agents_version@ == "1.0.1"@,
        r.created_at == now,
        r.updated_at == now,
        r.project_id == project_id,
        r.folder_id == folder_id,
{
    Team {
        id: team_id.to_owned(),
        user_id: user_id.to_owned(),
        name: name.to_owned(),
        workspace: workspace.to_owned(),
        workspace_mode: "shared".to_owned(),
        agents,
        lead_agent_id,
        session_mode: None,
        agents_version: "1.0.1".to_owned(),
        created_at: now,
        updated_at: now,
        project_id,
        folder_id,
    }
}

/// A folder of a project.
#[derive(Debug)]
pub struct ProjectEntry {
    pub role: String,
    pub folder_id: String,
    pub resource_uri: String,
}

pub open spec fn is_workspace() -> spec_fn(ProjectEntry) -> bool {
    |e: ProjectEntry| e.role@ == "workspace"@
}

/// The workspace folder of a project: the first entry with that role.
pub fn resolve_project_workspace(entries: &[ProjectEntry]) -> (r: Result<usize, TeamError>)
    ensures
        match first_index(entries@, is_workspace()) {
            Some(i) => r matches Ok(k) && k == i && k < entries@.len(),
            None => r matches Err(TeamError::InvalidRequest(x)) && x@
                == "project has no workspace folder"@,
        },
{
    let ghost p = is_workspace();
    let mut i: usize = 0;
    while i < entries.len()
        invariant
            i <= entries@.len(),
            p == is_workspace(),
            forall|j: int| 0 <= j < i ==> !p(#[trigger] entries@[j]),
        decreases entries@.len() - i,
    {
        if same_text(entries[i].role.as_str(), "workspace") {
            proof {
                lemma_is_first(entries@, p, i as int);
            }
            return Ok(i);
        }
        i = i + 1;
    }
    proof {
        lemma_no_first(entries@, p);
    }
    Err(TeamError::InvalidRequest("project has no workspace folder".to_owned()))
}

/// The team has no project yet, but a workspace from which to find one.
pub fn needs_binding(team: &Team) -> (r: bool)
    ensures
        r == (team.project_id is None && !is_blank(team.workspace@)),
{
    team.project_id.is_none() && !blank(team.workspace.as_str())
}

/// The engagement that a request means: its project, and its workspace where
/// that is the team's own.
#[derive(Debug)]
pub struct EngagementTarget {
    pub project_id: String,
    pub team_workspace: Option<String>,
}

/// The project of the engagement: the one that was named, or the team's own
/// where none was.
pub open spec fn target_project(team: Team, project: Seq<char>) -> Seq<char> {
    if project == "__none__"@ {
        match team.project_id {
            Some(p) => p@,
            None => "__none__"@,
        }
    } else {
        project
    }
}

/// The target is the engagement that a request with this project means.
pub open spec fn is_meant(team: Team, project: Seq<char>, t: EngagementTarget) -> bool {
    &&& t.project_id@ == target_project(team, project)
    &&& opt_text(t.team_workspace) == if t.project_id@ == "__none__"@ {
        Some(team.workspace@)
    } else {
        None
    }
}

impl TeamSessionService {
    /// The engagement that is found or created for a request. A request without a
    /// project means the team's own engagement. Only an engagement without a
    /// project works in the team's workspace.
    pub fn ensure_engagement(
        team: Option<&Team>,
        user_id: &str,
        team_id: &str,
        project_id: &str,
    ) -> (r: Result<EngagementTarget, TeamError>)
        ensures
            match r {
                Ok(t) => owned(team, user_id@, team_id@) && t.project_id@ == target_project(
                    *team->0,
                    project_id@,
                ) && opt_text(t.team_workspace) == if t.project_id@ == "__none__"@ {
                    Some((team->0).workspace@)
                } else {
                    None
                },
                Err(e) => !owned(team, user_id@, team_id@) && (e matches TeamError::TeamNotFound(x)
                    && x@ == team_id@),
            },
            r matches Ok(t) ==> is_meant(*team->0, project_id@, t),
    {
        let team = match load_owned_team(team, user_id, team_id) {
            Ok(t) => t,
            Err(e) => return Err(e),
        };
        let project = if same_text(project_id, TEAM_NO_PROJECT_SENTINEL) {
            match &team.project_id {
                Some(p) => p.clone(),
                None => TEAM_NO_PROJECT_SENTINEL.to_owned(),
            }
        } else {
            project_id.to_owned()
        };
        let team_workspace = if same_text(project.as_str(), TEAM_NO_PROJECT_SENTINEL) {
            Some(team.workspace.clone())
        } else {
            None
        };
        Ok(EngagementTarget { project_id: project, team_workspace })
    }
}

/// A team that is bound to a project never gets an engagement without one: a
/// request without a project lands on the engagement of the team's project.
pub proof fn law_bound_team_has_no_orphan_engagement(team: Team, project: Seq<char>)
    requires
        team.project_id matches Some(p) && p@ != "__none__"@,
    ensures
        target_project(team, project) != "__none__"@,
        target_project(team, "__none__"@) == team.project_id->0@,
{
}

/// The key is that of the session of the team for the engagement.
pub open spec fn is_key(team: Team, engagement: Seq<char>, key: Seq<char>) -> bool {
    key == match team.project_id {
        Some(_) => engagement,
        None => team.id@,
    }
}

/// The key under which the session of a team runs: the engagement of its
/// project, or the team itself where it has none.
pub fn engagement_key(team: &Team, engagement_id: &str) -> (r: String)
    ensures
        r@ == if team.project_id is None {
            team.id@
        } else {
            engagement_id@
        },
        is_key(*team, engagement_id@, r@),
{
    match &team.project_id {
        Some(_) => engagement_id.to_owned(),
        None => team.id.clone(),
    }
}

/// The lines that tie a delegated message to its engagement and its task.
pub open spec fn correlation(engagement: Seq<char>, task: Seq<char>) -> Seq<char> {
    "engagement_id: "@ + engagement + "\nroot_task_id: "@ + task + "\n"@
}

/// `r` is the payload with the stamp in front of the first end marker; a
/// payload without the marker stays as it is.
pub open spec fn stamped(payload: Seq<char>, stamp: Seq<char>, r: Seq<char>) -> bool {
    &&& (forall|k: int| !occurs_at(payload, "[[/AION_DELEGATE]]"@, k)) ==> r == payload
    &&& forall|k: int| #[trigger]
        first_occurs_at(payload, "[[/AION_DELEGATE]]"@, k) ==> r == payload.take(k) + stamp
            + payload.skip(k)
}

/// Writes the correlation lines into the block of a delegated message, in front
/// of its end marker, where no text of the message can come before them.
pub fn stamp_envelope_correlation(payload: &str, engagement_id: &str, root_task_id: &str) -> (r:
    String)
    ensures
        stamped(payload@, correlation(engagement_id@, root_task_id@), r@),
{
    proof {
        reveal_strlit("[[/AION_DELEGATE]]");
        assert("[[/AION_DELEGATE]]"@.len() == 18);
    }
    match split_at_first(payload, DELEGATE_ENVELOPE_END_MARKER) {
        Some((head, tail)) => {
            let mut r = head.to_owned();
            r.append("engagement_id: ");
            r.append(engagement_id);
            r.append("\nroot_task_id: ");
            r.append(root_task_id);
            r.append("\n");
            r.append(tail);
            proof {
                let at = head@.len() as int;
                assert(payload@.take(at) =~= head@);
                assert(payload@.skip(at) =~= tail@);
                assert(r@ =~= payload@.take(at) + correlation(engagement_id@, root_task_id@)
                    + payload@.skip(at));
                assert forall|k: int| #[trigger]
                    first_occurs_at(payload@, "[[/AION_DELEGATE]]"@, k) implies k == at by {
                    if k < at {
                        assert(!occurs_at(payload@, "[[/AION_DELEGATE]]"@, k));
                    } else if at < k {
                        assert(!occurs_at(payload@, "[[/AION_DELEGATE]]"@, at));
                    }
                }
                assert(occurs_at(payload@, "[[/AION_DELEGATE]]"@, at));
            }
            r
        },
        None => {
            proof {
                assert forall|k: int| #[trigger]
                    first_occurs_at(payload@, "[[/AION_DELEGATE]]"@, k) implies false by {
                    assert(occurs_at(payload@, "[[/AION_DELEGATE]]"@, k));
                }
            }
            payload.to_owned()
        },
    }
}

/// A stamped message reads up to its first end marker as it was, then the
/// correlation lines, then everything else as it was: what the message says
/// behind the block stays behind the lines.
pub proof fn law_stamp_goes_before_the_body(
    payload: Seq<char>,
    stamp: Seq<char>,
    r: Seq<char>,
    at: int,
)
    requires
        stamped(payload, stamp, r),
        first_occurs_at(payload, "[[/AION_DELEGATE]]"@, at),
    ensures
        r.len() == payload.len() + stamp.len(),
        r.subrange(0, at) == payload.subrange(0, at),
        r.subrange(at, (at + stamp.len()) as int) == stamp,
        r.subrange((at + stamp.len()) as int, r.len() as int) == payload.subrange(
            at,
            payload.len() as int,
        ),
        occurs_at(r, "[[/AION_DELEGATE]]"@, (at + stamp.len()) as int),
        forall|k: int|
            0 <= k && k + "[[/AION_DELEGATE]]"@.len() <= at ==> !occurs_at(
                r,
                "[[/AION_DELEGATE]]"@,
                k,
            ),
{
    reveal_strlit("[[/AION_DELEGATE]]");
    let m = "[[/AION_DELEGATE]]"@;
    assert(m.len() == 18);
    assert(r.subrange(0, at) =~= payload.subrange(0, at));
    assert(r.subrange(at, (at + stamp.len()) as int) =~= stamp);
    assert(r.subrange((at + stamp.len()) as int, r.len() as int) =~= payload.subrange(
        at,
        payload.len() as int,
    ));
    let b = (at + stamp.len()) as int;
    assert(r.subrange(b, b + m.len()) =~= payload.subrange(at, at + m.len()));
    assert forall|k: int| 0 <= k && k + m.len() <= at implies !occurs_at(r, m, k) by {
        assert(r.subrange(k, k + m.len()) =~= payload.subrange(k, k + m.len()));
        assert(!occurs_at(payload, m, k));
    }
}

/// A conversation with these members has inherited the workspace.
pub open spec fn inherited(
    before: Map<Seq<char>, Member>,
    workspace: Seq<char>,
    after: Map<Seq<char>, Member>,
) -> bool {
    after == if is_blank(workspace) {
        before
    } else {
        before.insert("workspace"@, Member::Text(workspace))
    }
}

/// Gives a conversation the workspace of its team, where the team has one.
pub fn inherit_team_workspace(extra: &mut serde_json::Value, workspace: &str)
    requires
        !is_blank(workspace@) ==> takes_members(*old(extra)),
    ensures
        if is_blank(workspace@) {
            *final(extra) == *old(extra)
        } else {
            members(*final(extra)) == members(*old(extra)).insert(
                "workspace"@,
                Member::Text(workspace@),
            ) && takes_members(*final(extra))
        },
        inherited(members(*old(extra)), workspace@, members(*final(extra))),
{
    if !blank(workspace) {
        set_text(extra, "workspace", workspace);
    }
}

/// As `inherit_team_workspace`; says whether the conversation could be given
/// the workspace. A value that takes no members is left as it is.
pub fn try_inherit_team_workspace(extra: &mut serde_json::Value, workspace: &str) -> (r: bool)
    ensures
        r == (is_blank(workspace@) || takes_members(*old(extra))),
        if is_blank(workspace@) || !r {
            *final(extra) == *old(extra)
        } else {
            members(*final(extra)) == members(*old(extra)).insert(
                "workspace"@,
                Member::Text(workspace@),
            )
        },
{
    if blank(workspace) || can_take_members(extra) {
        inherit_team_workspace(extra, workspace);
        true
    } else {
        false
    }
}

/// Nobody is given the team of another user, nor one that they did not ask for; the
/// owner always is given it.
pub proof fn law_team_is_only_for_its_owner(team: Option<&Team>, user: Seq<char>, id: Seq<char>)
    ensures
        team is None ==> !owned(team, user, id),
        team is Some ==> (owned(team, user, id) <==> (team->0).user_id@ == user && (team->0).id@
            == id),
{
}

/// Of the sources of a workspace the project comes first, whatever path was named; a
/// path counts only where there is no project and it is not empty.
pub proof fn law_project_goes_before_the_path(
    project: Option<Seq<char>>,
    workspace: Option<Seq<char>>,
    r: WorkspaceChoice,
)
    requires
        chooses(project, workspace, r),
    ensures
        r is Project <==> project is Some,
        r matches WorkspaceChoice::Project(p) ==> project == Some(p@),
        r is Path <==> project is None && workspace is Some && workspace->0 != Seq::<char>::empty(),
        r matches WorkspaceChoice::Path(w) ==> workspace == Some(w@),
{
    if let Some(w) = workspace {
        assert(w.len() == 0 ==> w =~= Seq::<char>::empty());
    }
}

/// An agent comes from a conversation that exists exactly where the request names one
/// with a character that is no white space.
pub proof fn law_blank_conversation_is_none(ids: Seq<Option<String>>)
    ensures
        any(ids, reuses_conversation()) <==> exists|i: int, j: int|
            {
                &&& 0 <= i < ids.len()
                &&& ids[i] is Some
                &&& 0 <= j < (#[trigger] ids[i])->0@.len()
                &&& !crate::text::is_white_space(#[trigger] ids[i]->0@[j])
            },
{
    let p = reuses_conversation();
    if any(ids, p) {
        let i = choose|i: int| 0 <= i < ids.len() && p(#[trigger] ids[i]);
        assert(!is_blank(ids[i]->0@));
        let j = choose|j: int|
            0 <= j < ids[i]->0@.len() && !crate::text::is_white_space(#[trigger] ids[i]->0@[j]);
        assert(ids[i] is Some);
        assert(!crate::text::is_white_space(ids[i]->0@[j]));
    }
    if exists|i: int, j: int|
        {
            &&& 0 <= i < ids.len()
            &&& ids[i] is Some
            &&& 0 <= j < (#[trigger] ids[i])->0@.len()
            &&& !crate::text::is_white_space(#[trigger] ids[i]->0@[j])
        } {
        let (i, j) = choose|i: int, j: int|
            {
                &&& 0 <= i < ids.len()
                &&& ids[i] is Some
                &&& 0 <= j < (#[trigger] ids[i])->0@.len()
                &&& !crate::text::is_white_space(#[trigger] ids[i]->0@[j])
            };
        assert(p(ids[i]));
    }
}

/// The workspace of a project is the first of its folders with that role.
pub proof fn law_first_workspace_folder_counts(entries: Seq<ProjectEntry>)
    ensures
        match first_index(entries, is_workspace()) {
            Some(i) => 0 <= i < entries.len() && entries[i].role@ == "workspace"@ && forall|j: int|
                0 <= j < i ==> (#[trigger] entries[j]).role@ != "workspace"@,
            None => forall|j: int|
                0 <= j < entries.len() ==> (#[trigger] entries[j]).role@ != "workspace"@,
        },
{
    let p = is_workspace();
    crate::search::lemma_first_index(entries, p);
    let n = match first_index(entries, p) {
        Some(i) => i,
        None => entries.len() as int,
    };
    assert forall|j: int| 0 <= j < n implies (#[trigger] entries[j]).role@ != "workspace"@ by {
        assert(!p(entries[j]));
    }
}

/// A request that names a project means that one; one that names none means the
/// team's own.
pub proof fn law_named_project_is_meant(team: Team, project: Seq<char>)
    ensures
        project != "__none__"@ ==> target_project(team, project) == project,
        team.project_id is Some ==> target_project(team, "__none__"@) == team.project_id->0@,
        team.project_id is None ==> target_project(team, "__none__"@) == "__none__"@,
{
}

/// A team needs an agent, and none of its agents may come from a conversation that
/// exists; every other request is accepted, with a project before a path.
pub proof fn law_new_team_starts_afresh(
    conversations: Seq<Option<String>>,
    project: Option<Seq<char>>,
    workspace: Option<Seq<char>>,
    r: Result<WorkspaceChoice, TeamError>,
)
    requires
        team_request_answered(conversations, project, workspace, r),
    ensures
        r is Ok <==> conversations.len() > 0 && forall|i: int|
            0 <= i < conversations.len() && (#[trigger] conversations[i]) is Some ==> is_blank(
                conversations[i]->0@,
            ),
        r matches Err(e) ==> e is InvalidRequest,
        conversations.len() == 0 ==> (r matches Err(TeamError::InvalidRequest(x)) && x@
            == "at least one agent is required"@),
        r matches Ok(choice) ==> {
            &&& project is Some ==> (choice matches WorkspaceChoice::Project(p) && p@ == project->0)
            &&& project is None && workspace is Some && workspace->0.len() > 0 ==> (
            choice matches WorkspaceChoice::Path(w) && w@ == workspace->0)
            &&& project is None && (workspace is None || workspace->0.len() == 0) ==> choice
                is Leader
        },
{
    let p = reuses_conversation();
    if any(conversations, p) {
        let i = choose|i: int| 0 <= i < conversations.len() && p(#[trigger] conversations[i]);
        assert(conversations[i] is Some && !is_blank(conversations[i]->0@));
    } else {
        assert forall|i: int|
            0 <= i < conversations.len() && (#[trigger] conversations[i]) is Some implies is_blank(
            conversations[i]->0@,
        ) by {
            assert(!p(conversations[i]));
        }
    }
}

/// A request works in the project that it names, or in that of the team where it names
/// none; only where there is neither does it work in the workspace of the team.
pub proof fn law_request_means_one_engagement(team: Team, project: Seq<char>, t: EngagementTarget)
    requires
        is_meant(team, project, t),
    ensures
        project != "__none__"@ ==> t.project_id@ == project && t.team_workspace is None,
        project == "__none__"@ && team.project_id is Some ==> t.project_id@ == team.project_id->0@,
        project == "__none__"@ && team.project_id is None ==> t.project_id@ == "__none__"@ && (
        t.team_workspace matches Some(w) && w@ == team.workspace@),
        t.team_workspace is Some <==> t.project_id@ == "__none__"@,
{
}

/// Two engagements of a team with a project have sessions of their own; a team without
/// one has a single session, whatever the engagement.
pub proof fn law_sessions_are_kept_by_engagement(
    team: Team,
    one: Seq<char>,
    other: Seq<char>,
    key: Seq<char>,
    other_key: Seq<char>,
)
    requires
        is_key(team, one, key),
        is_key(team, other, other_key),
    ensures
        team.project_id is Some ==> key == one && (one != other ==> key != other_key),
        team.project_id is None ==> key == team.id@ && key == other_key,
{
}

/// A conversation has the workspace of its team afterwards, unless that is blank, and
/// whatever else it had.
pub proof fn law_workspace_is_inherited(
    before: Map<Seq<char>, Member>,
    workspace: Seq<char>,
    after: Map<Seq<char>, Member>,
    key: Seq<char>,
)
    requires
        inherited(before, workspace, after),
    ensures
        !is_blank(workspace) ==> after.dom().contains("workspace"@) && after["workspace"@]
            == Member::Text(workspace),
        is_blank(workspace) || key != "workspace"@ ==> (after.dom().contains(key)
            <==> before.dom().contains(key)) && (before.dom().contains(key) ==> after[key]
            == before[key]),
{
}

} // verus!
