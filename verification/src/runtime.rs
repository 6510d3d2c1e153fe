//! What the runtimes of members can be asked and can answer, and the rules that
//! follow from a single answer.
use crate::roster::{lead_position, leads, TeamAgent};
use crate::scheduler::TeammateRole;
use crate::search::{first_index, lemma_first_index};
use crate::sessions::{at, SessionInfo, TeamSessionService};
use crate::text::texts;
use vstd::prelude::*;

verus! {

/// Where the runtime of a member stands.
#[derive(Debug)]
pub enum MemberRuntimeSnapshot {
    /// It was never asked to start.
    Absent,
    Attaching,
    Ready,
    Failed { public_reason: String },
    Removing,
    SessionStopped,
}

/// How the attempt to start a runtime ended.
#[derive(Debug)]
pub enum AttachOutcome {
    Ready,
    Failed { public_reason: String },
    /// The member was removed meanwhile.
    Removed,
    SessionStopped,
}

/// The answer to a request to start a runtime.
#[derive(Debug, Clone, Copy, PartialEq, Eq, Structural)]
pub enum ReserveAttach {
    /// It is the caller's to start.
    Start,
    /// Somebody else is starting it.
    Join,
    Removing,
    AlreadyReady,
    SessionStopped,
}

/// The answer to a request to remove a runtime.
#[derive(Debug, Clone, Copy, PartialEq, Eq, Structural)]
pub enum BeginRemove {
    /// It is the caller's to remove.
    Start,
    /// Somebody else is removing it.
    Join,
    Absent,
    SessionStopped,
}

/// Why a runtime cannot be restarted now.
#[derive(Debug, Clone, Copy, PartialEq, Eq, Structural)]
pub enum RuntimeRestartRejection {
    Busy,
    Removing,
    SessionStopped,
}

#[derive(Debug, Clone, Copy, PartialEq, Eq, Structural)]
pub enum TeamSessionStatus {
    Starting,
    Ready,
    Failed,
    Stopped,
}

#[derive(Debug, Clone, Copy, PartialEq, Eq, Structural)]
pub enum TeamSessionPhase {
    LoadingTeam,
    StartingBridge,
    AttachingAgents,
    Recovering,
}

#[derive(Debug, Clone, Copy, PartialEq, Eq, Structural)]
pub enum TeamAgentRuntimeStatus {
    Dormant,
    Pending,
    Ready,
    Failed,
}

/// The text that goes with a status of a session.
#[derive(Debug, Clone, Copy, PartialEq, Eq, Structural)]
pub enum StatusText {
    Nothing,
    /// That the team does not exist.
    TeamMissing,
    /// The error with which the request ends.
    OfError,
    /// The reason for which the runtime of the lead failed.
    OfFailure,
}

/// A status of a session, as it is announced.
#[derive(Debug, Clone, Copy, PartialEq, Eq, Structural)]
pub struct SessionStatus {
    pub status: TeamSessionStatus,
    pub phase: Option<TeamSessionPhase>,
    pub text: StatusText,
    pub server_count: Option<usize>,
}

/// What a status says of a team that does not exist.
pub fn team_missing_text(team_id: &str) -> (r: String)
    ensures
        r@ == "team not found: "@ + team_id@,
{
    let mut r = "team not found: ".to_owned();
    r.append(team_id);
    r
}

/// What a stored snapshot of the members' MCP servers asks of a runtime.
#[derive(Debug, Clone, Copy, PartialEq, Eq, Structural)]
pub enum McpRefreshDisposition {
    Unchanged,
    Deferred,
    RestartNow,
}

/// What is done about a changed set of MCP servers.
#[derive(Debug, Clone, Copy, PartialEq, Eq, Structural)]
pub enum McpRefreshAction {
    /// Nothing: the next start reads the set anew.
    Leave,
    /// Note it until the runtime has settled.
    Defer,
    /// Ask the runtime whether it has to restart.
    Ask,
    /// Restart the runtime; if that fails, note it.
    Restart,
}

/// What a change of the bindings means for a member: one that is ready is asked, one
/// that is on its way in or out hears of it later, any other one reads them when it
/// starts.
pub open spec fn refresh_follows(snapshot: MemberRuntimeSnapshot, action: McpRefreshAction) -> bool {
    &&& action == McpRefreshAction::Ask <==> snapshot is Ready
    &&& action == McpRefreshAction::Defer <==> snapshot is Attaching || snapshot is Removing
    &&& action != McpRefreshAction::Restart
}

/// What a changed set of MCP servers asks of a member in that state.
pub fn refresh_member_mcp_binding(snapshot: &MemberRuntimeSnapshot) -> (r: McpRefreshAction)
    ensures
        r == match snapshot {
            MemberRuntimeSnapshot::Ready => McpRefreshAction::Ask,
            MemberRuntimeSnapshot::Attaching | MemberRuntimeSnapshot::Removing =>
                McpRefreshAction::Defer,
            _ => McpRefreshAction::Leave,
        },
        refresh_follows(*snapshot, r),
{
    match snapshot {
        MemberRuntimeSnapshot::Absent => McpRefreshAction::Leave,
        MemberRuntimeSnapshot::Failed { .. } => McpRefreshAction::Leave,
        MemberRuntimeSnapshot::SessionStopped => McpRefreshAction::Leave,
        MemberRuntimeSnapshot::Attaching => McpRefreshAction::Defer,
        MemberRuntimeSnapshot::Removing => McpRefreshAction::Defer,
        MemberRuntimeSnapshot::Ready => McpRefreshAction::Ask,
    }
}

/// What the answer of a ready runtime asks for.
pub fn mcp_refresh_requested(d: McpRefreshDisposition) -> (r: McpRefreshAction)
    ensures
        r == if d == McpRefreshDisposition::RestartNow {
            McpRefreshAction::Restart
        } else {
            McpRefreshAction::Leave
        },
{
    match d {
        McpRefreshDisposition::RestartNow => McpRefreshAction::Restart,
        _ => McpRefreshAction::Leave,
    }
}

/// The status that a session shows while its lead is in that state. It is the
/// lead's alone: what teammates do shows with them.
pub open spec fn leader_status(snapshot: MemberRuntimeSnapshot, agents: nat) -> Option<
    SessionStatus,
> {
    match snapshot {
        MemberRuntimeSnapshot::Ready => Some(
            SessionStatus {
                status: TeamSessionStatus::Ready,
                phase: None,
                text: StatusText::Nothing,
                server_count: Some(agents as usize),
            },
        ),
        MemberRuntimeSnapshot::Failed { .. } => Some(
            SessionStatus {
                status: TeamSessionStatus::Failed,
                phase: Some(TeamSessionPhase::AttachingAgents),
                text: StatusText::OfFailure,
                server_count: None,
            },
        ),
        MemberRuntimeSnapshot::SessionStopped => None,
        _ => Some(
            SessionStatus {
                status: TeamSessionStatus::Starting,
                phase: Some(TeamSessionPhase::AttachingAgents),
                text: StatusText::Nothing,
                server_count: None,
            },
        ),
    }
}

fn shown_for(lead: &MemberRuntimeSnapshot, agents: usize) -> (r: Option<SessionStatus>)
    ensures
        r == leader_status(*lead, agents as nat),
{
    match lead {
        MemberRuntimeSnapshot::Ready => Some(
            SessionStatus {
                status: TeamSessionStatus::Ready,
                phase: None,
                text: StatusText::Nothing,
                server_count: Some(agents),
            },
        ),
        MemberRuntimeSnapshot::Failed { .. } => Some(
            SessionStatus {
                status: TeamSessionStatus::Failed,
                phase: Some(TeamSessionPhase::AttachingAgents),
                text: StatusText::OfFailure,
                server_count: None,
            },
        ),
        MemberRuntimeSnapshot::SessionStopped => None,
        _ => Some(
            SessionStatus {
                status: TeamSessionStatus::Starting,
                phase: Some(TeamSessionPhase::AttachingAgents),
                text: StatusText::Nothing,
                server_count: None,
            },
        ),
    }
}

/// The status that a session shows. Where it is no longer the one that is
/// published, or nobody in it leads, it shows none.
pub open spec fn session_shows(
    published: Option<SessionInfo>,
    expected: SessionInfo,
    roster: Seq<TeamAgent>,
    snapshots: Seq<MemberRuntimeSnapshot>,
    agents: nat,
) -> Option<SessionStatus> {
    match (published, first_index(roster, leads())) {
        (Some(s), Some(lead)) if s.generation == expected.generation => leader_status(
            snapshots[lead],
            agents,
        ),
        _ => None,
    }
}

impl TeamSessionService {
    /// The status to announce for a session, from the runtime of the lead that
    /// works in it. `roster` are the members that work in the session, with the
    /// state of each one's runtime in `snapshots`; `agents` counts the agents
    /// of the team.
    pub fn refresh_member_runtime_status(
        &self,
        expected: &SessionInfo,
        roster: &[TeamAgent],
        snapshots: &[MemberRuntimeSnapshot],
        agents: usize,
    ) -> (r: Option<SessionStatus>)
        requires
            roster@.len() == snapshots@.len(),
        ensures
            r == session_shows(
                at(self.sessions(), expected.engagement_id@),
                *expected,
                roster@,
                snapshots@,
                agents as nat,
            ),
    {
        if self.capture_published_session(expected).is_none() {
            return None;
        }
        proof {
            lemma_first_index(roster@, leads());
        }
        match lead_position(roster) {
            Some(lead) => shown_for(&snapshots[lead], agents),
            None => None,
        }
    }
}

/// The status of a session is its lead's: whatever the runtimes of teammates
/// do, it shows the same.
pub proof fn law_teammates_do_not_change_the_status(
    published: Option<SessionInfo>,
    expected: SessionInfo,
    roster: Seq<TeamAgent>,
    before: Seq<MemberRuntimeSnapshot>,
    after: Seq<MemberRuntimeSnapshot>,
    agents: nat,
)
    requires
        roster.len() == before.len(),
        roster.len() == after.len(),
        forall|i: int|
            0 <= i < roster.len() && leads()(#[trigger] roster[i]) ==> before[i] == after[i],
    ensures
        session_shows(published, expected, roster, before, agents) == session_shows(
            published,
            expected,
            roster,
            after,
            agents,
        ),
{
    lemma_first_index(roster, leads());
}

/// What holds a member's runtime back.
#[derive(Debug, Clone, Copy, PartialEq, Eq, Structural)]
pub enum RuntimeConstraint {
    Ready,
    Starting,
    Failed,
}

/// What a slot of a session works at.
#[derive(Debug)]
pub struct SlotWork {
    pub slot_id: String,
    pub constraint: RuntimeConstraint,
}

/// The runtime of the slot is starting.
pub open spec fn slot_starts() -> spec_fn(SlotWork) -> bool {
    |w: SlotWork| w.constraint == RuntimeConstraint::Starting
}

/// The slots whose runtimes are starting.
pub fn starting_slots(work: &[SlotWork]) -> (r: Vec<String>)
    ensures
        texts(r@) == work@.filter(slot_starts()).map_values(|w: SlotWork| w.slot_id@),
{
    let ghost keep = slot_starts();
    let ghost name = |w: SlotWork| w.slot_id@;
    let mut r: Vec<String> = Vec::new();
    let mut i: usize = 0;
    proof {
        reveal(Seq::filter);
        assert(texts(r@) =~= work@.take(0).filter(keep).map_values(name));
    }
    while i < work.len()
        invariant
            i <= work@.len(),
            keep == slot_starts(),
            name == (|w: SlotWork| w.slot_id@),
            texts(r@) == work@.take(i as int).filter(keep).map_values(name),
        decreases work@.len() - i,
    {
        let ghost before = r@;
        let starts = match work[i].constraint {
            RuntimeConstraint::Starting => true,
            _ => false,
        };
        if starts {
            r.push(work[i].slot_id.clone());
        }
        proof {
            reveal(Seq::filter);
            assert(work@.take(i + 1).drop_last() =~= work@.take(i as int));
            if starts {
                assert(texts(r@) =~= texts(before).push(work@[i as int].slot_id@));
                assert(work@.take(i as int).filter(keep).push(work@[i as int]).map_values(name)
                    =~= work@.take(i as int).filter(keep).map_values(name).push(
                    work@[i as int].slot_id@,
                ));
            }
        }
        i = i + 1;
    }
    assert(work@.take(i as int) =~= work@);
    r
}

/// How far a run has come.
#[derive(Debug, Clone, Copy, PartialEq, Eq, Structural)]
pub enum TeamRunStatus {
    Accepted,
    Running,
    Cancelling,
    Completed,
    Cancelled,
    Failed,
}

/// The run has not ended.
pub open spec fn active(status: TeamRunStatus) -> bool {
    status == TeamRunStatus::Accepted || status == TeamRunStatus::Running || status
        == TeamRunStatus::Cancelling
}

/// Whether a run is shown as the active one.
pub fn is_active_run(status: TeamRunStatus) -> (r: bool)
    ensures
        r == active(status),
{
    match status {
        TeamRunStatus::Accepted => true,
        TeamRunStatus::Running => true,
        TeamRunStatus::Cancelling => true,
        _ => false,
    }
}

/// A session is ready exactly where its lead is, and then counts its agents; it failed
/// exactly where its lead did; one whose lead stopped with it shows nothing any more;
/// in every other case it is starting.
pub proof fn law_session_is_as_its_lead(snapshot: MemberRuntimeSnapshot, agents: nat)
    ensures
        ({
            let r = leader_status(snapshot, agents);
            &&& r is None <==> snapshot is SessionStopped
            &&& r is Some ==> {
                &&& r->0.status == TeamSessionStatus::Ready <==> snapshot is Ready
                &&& r->0.status == TeamSessionStatus::Failed <==> snapshot is Failed
                &&& r->0.status == TeamSessionStatus::Starting <==> !(snapshot is Ready || snapshot
                    is Failed)
                &&& snapshot is Ready ==> r->0.phase is None && r->0.server_count == Some(
                    agents as usize,
                )
                &&& !(snapshot is Ready) ==> r->0.phase == Some(TeamSessionPhase::AttachingAgents)
                    && r->0.server_count is None
                &&& r->0.text == StatusText::OfFailure <==> snapshot is Failed
                &&& !(snapshot is Failed) ==> r->0.text == StatusText::Nothing
            }
        }),
{
}

/// Only the session that is published under its engagement, in the same generation and
/// with somebody who leads, shows a status; it is that of the first who does.
pub proof fn law_only_the_current_session_shows_its_lead(
    published: Option<SessionInfo>,
    expected: SessionInfo,
    roster: Seq<TeamAgent>,
    snapshots: Seq<MemberRuntimeSnapshot>,
    agents: nat,
    lead: int,
)
    ensures
        published is None || published->0.generation != expected.generation ==> session_shows(
            published,
            expected,
            roster,
            snapshots,
            agents,
        ) is None,
        (forall|i: int|
            0 <= i < roster.len() ==> (#[trigger] roster[i]).role == TeammateRole::Teammate)
            ==> session_shows(published, expected, roster, snapshots, agents) is None,
        published is Some && published->0.generation == expected.generation && 0 <= lead
            < roster.len() && roster[lead].role == TeammateRole::Lead && (forall|i: int|
            0 <= i < lead ==> (#[trigger] roster[i]).role == TeammateRole::Teammate)
            ==> session_shows(published, expected, roster, snapshots, agents) == leader_status(
            snapshots[lead],
            agents,
        ),
{
    let p = leads();
    crate::roster::law_first_lead_leads(roster);
    if let Some(i) = first_index(roster, p) {
        assert(roster[i].role == TeammateRole::Lead);
        if 0 <= lead < i {
            assert(roster[lead].role == TeammateRole::Teammate);
        }
    } else if 0 <= lead < roster.len() {
        assert(roster[lead].role == TeammateRole::Teammate);
    }
}

/// A run is active until it completed, was cancelled or failed.
pub proof fn law_run_is_active_until_it_ended(status: TeamRunStatus)
    ensures
        active(status) <==> !(status == TeamRunStatus::Completed || status
            == TeamRunStatus::Cancelled || status == TeamRunStatus::Failed),
{
}

/// The slots that are starting are those whose runtime is, in their order.
pub proof fn law_starting_slots_are_starting(work: Seq<SlotWork>)
    ensures
        work.filter(slot_starts()) == work.filter(
            |w: SlotWork| w.constraint == RuntimeConstraint::Starting,
        ),
{
    crate::search::lemma_filter_same(
        work,
        slot_starts(),
        |w: SlotWork| w.constraint == RuntimeConstraint::Starting,
    );
}

/// Nothing is restarted without having been asked, and only a member that is ready is
/// asked; none that waits for nothing is put off.
pub proof fn law_bindings_are_refreshed_on_answer(
    snapshot: MemberRuntimeSnapshot,
    action: McpRefreshAction,
)
    requires
        refresh_follows(snapshot, action),
    ensures
        action != McpRefreshAction::Restart,
        snapshot is Ready ==> action == McpRefreshAction::Ask,
        snapshot is Attaching || snapshot is Removing ==> action == McpRefreshAction::Defer,
        snapshot is Absent || snapshot is Failed || snapshot is SessionStopped ==> action
            == McpRefreshAction::Leave,
{
}

} // verus!
