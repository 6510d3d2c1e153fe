//! Removing a whole team: what is done, and in which order.
use crate::error::TeamError;
use crate::roster::{conversations_of, EngagementMember, TeamAgent};
use crate::sessions::TeamSessionService;
use crate::teams::{load_owned_team, owned, Team};
use vstd::prelude::*;

verus! {

/// What is done to remove a team.
#[derive(Debug)]
pub enum TeamRemovalStep {
    /// End its sessions and its processes.
    StopRuntime,
    DeleteConversation(String),
    DeleteMembers,
    DeleteEngagements,
    DeleteMailbox,
    DeleteTasks,
    DeleteTeam,
    /// Forget where the team stood in the order of its user's things.
    DeleteOrder,
    Announce,
}

pub enum StepView {
    StopRuntime,
    DeleteConversation(Seq<char>),
    DeleteMembers,
    DeleteEngagements,
    DeleteMailbox,
    DeleteTasks,
    DeleteTeam,
    DeleteOrder,
    Announce,
}

impl View for TeamRemovalStep {
    type V = StepView;

    open spec fn view(&self) -> StepView {
        match self {
            TeamRemovalStep::StopRuntime => StepView::StopRuntime,
            TeamRemovalStep::DeleteConversation(id) => StepView::DeleteConversation(id@),
            TeamRemovalStep::DeleteMembers => StepView::DeleteMembers,
            TeamRemovalStep::DeleteEngagements => StepView::DeleteEngagements,
            TeamRemovalStep::DeleteMailbox => StepView::DeleteMailbox,
            TeamRemovalStep::DeleteTasks => StepView::DeleteTasks,
            TeamRemovalStep::DeleteTeam => StepView::DeleteTeam,
            TeamRemovalStep::DeleteOrder => StepView::DeleteOrder,
            TeamRemovalStep::Announce => StepView::Announce,
        }
    }
}

pub open spec fn step_views(v: Seq<TeamRemovalStep>) -> Seq<StepView> {
    v.map_values(|s: TeamRemovalStep| s@)
}

impl TeamRemovalStep {
    /// Whether the removal ends with the error of this step. The other steps
    /// leave nothing behind that would matter, and their errors are passed
    /// over.
    pub fn is_required(&self) -> (r: bool)
        ensures
            r == (self is DeleteMailbox || self is DeleteTasks || self is DeleteTeam),
    {
        match self {
            TeamRemovalStep::DeleteMailbox => true,
            TeamRemovalStep::DeleteTasks => true,
            TeamRemovalStep::DeleteTeam => true,
            _ => false,
        }
    }
}

pub open spec fn member_conversations(members: Seq<EngagementMember>) -> Seq<Seq<char>> {
    members.map_values(|m: EngagementMember| m.conversation_id@)
}

pub open spec fn deletions(ids: Seq<Seq<char>>) -> Seq<StepView> {
    ids.map_values(|id: Seq<char>| StepView::DeleteConversation(id))
}

/// The steps in their order: the runtime, the conversations of the template and
/// of the engagements, members before the engagements that they belong to, and
/// at last the rows of the team.
pub open spec fn removal_steps(agents: Seq<TeamAgent>, members: Seq<EngagementMember>) -> Seq<
    StepView,
> {
    seq![StepView::StopRuntime] + deletions(conversations_of(agents)) + deletions(
        member_conversations(members),
    ) + seq![
        StepView::DeleteMembers,
        StepView::DeleteEngagements,
        StepView::DeleteMailbox,
        StepView::DeleteTasks,
        StepView::DeleteTeam,
        StepView::DeleteOrder,
        StepView::Announce,
    ]
}

impl TeamSessionService {
    /// The steps that remove a team, in their order. `members` are those of all
    /// its engagements.
    pub fn remove_team(
        team: Option<&Team>,
        user_id: &str,
        team_id: &str,
        members: &[EngagementMember],
    ) -> (r: Result<Vec<TeamRemovalStep>, TeamError>)
        ensures
            match r {
                Ok(steps) => owned(team, user_id@, team_id@) && step_views(steps@)
                    == removal_steps((team->0).agents@, members@),
                Err(e) => !owned(team, user_id@, team_id@) && (e matches TeamError::TeamNotFound(
                    x,
                ) && x@ == team_id@),
            },
    {
        let team = match load_owned_team(team, user_id, team_id) {
            Ok(t) => t,
            Err(e) => return Err(e),
        };
        let ghost first = deletions(conversations_of(team.agents@));
        let ghost second = deletions(member_conversations(members@));
        let mut steps: Vec<TeamRemovalStep> = Vec::new();
        steps.push(TeamRemovalStep::StopRuntime);
        let mut i: usize = 0;
        assert(step_views(steps@) =~= seq![StepView::StopRuntime] + first.take(0));
        while i < team.agents.len()
            invariant
                i <= team.agents@.len(),
                first == deletions(conversations_of(team.agents@)),
                step_views(steps@) == seq![StepView::StopRuntime] + first.take(i as int),
            decreases team.agents@.len() - i,
        {
            let ghost before = step_views(steps@);
            steps.push(
                TeamRemovalStep::DeleteConversation(team.agents[i].conversation_id.clone()),
            );
            proof {
                assert(first[i as int] == StepView::DeleteConversation(
                    team.agents@[i as int].conversation_id@,
                ));
                assert(step_views(steps@) =~= before.push(first[i as int]));
                assert(step_views(steps@) =~= seq![StepView::StopRuntime] + first.take(i + 1));
            }
            i = i + 1;
        }
        let ghost head = step_views(steps@);
        assert(first.take(i as int) =~= first);
        let mut j: usize = 0;
        assert(head =~= head + second.take(0));
        while j < members.len()
            invariant
                j <= members@.len(),
                second == deletions(member_conversations(members@)),
                step_views(steps@) == head + second.take(j as int),
            decreases members@.len() - j,
        {
            let ghost before = step_views(steps@);
            steps.push(TeamRemovalStep::DeleteConversation(members[j].conversation_id.clone()));
            proof {
                assert(second[j as int] == StepView::DeleteConversation(
                    members@[j as int].conversation_id@,
                ));
                assert(step_views(steps@) =~= before.push(second[j as int]));
                assert(step_views(steps@) =~= head + second.take(j + 1));
            }
            j = j + 1;
        }
        assert(second.take(j as int) =~= second);
        steps.push(TeamRemovalStep::DeleteMembers);
        steps.push(TeamRemovalStep::DeleteEngagements);
        steps.push(TeamRemovalStep::DeleteMailbox);
        steps.push(TeamRemovalStep::DeleteTasks);
        steps.push(TeamRemovalStep::DeleteTeam);
        steps.push(TeamRemovalStep::DeleteOrder);
        steps.push(TeamRemovalStep::Announce);
        assert(step_views(steps@) =~= removal_steps(team.agents@, members@));
        Ok(steps)
    }
}

/// No conversation of the team is left behind: there is a step that deletes
/// each one of its template and of its engagements.
pub proof fn law_no_conversation_is_left_behind(
    agents: Seq<TeamAgent>,
    members: Seq<EngagementMember>,
    id: Seq<char>,
)
    requires
        conversations_of(agents).contains(id) || member_conversations(members).contains(id),
    ensures
        removal_steps(agents, members).contains(StepView::DeleteConversation(id)),
{
    let a = conversations_of(agents);
    let b = member_conversations(members);
    let all = removal_steps(agents, members);
    if a.contains(id) {
        let k = choose|k: int| 0 <= k < a.len() && a[k] == id;
        assert(all[1 + k] == StepView::DeleteConversation(id));
    } else {
        let k = choose|k: int| 0 <= k < b.len() && b[k] == id;
        assert(all[1 + a.len() + k] == StepView::DeleteConversation(id));
    }
}

/// A team is removed from the inside out: its runtime stops first, then go the
/// conversations of the template and those of the engagements, in their order, then
/// the members, the engagements, the mailbox, the tasks, the team and its place in the
/// order; last of all it is announced.
pub proof fn law_team_is_removed_from_the_inside_out(
    agents: Seq<TeamAgent>,
    members: Seq<EngagementMember>,
)
    ensures
        ({
            let all = removal_steps(agents, members);
            let n = (1 + agents.len() + members.len()) as int;
            &&& all.len() == n + 7
            &&& all[0] is StopRuntime
            &&& forall|i: int|
                0 <= i < agents.len() ==> all[1 + i] == StepView::DeleteConversation(
                    (#[trigger] agents[i]).conversation_id@,
                )
            &&& forall|j: int|
                0 <= j < members.len() ==> all[1 + agents.len() + j]
                    == StepView::DeleteConversation((#[trigger] members[j]).conversation_id@)
            &&& all[n] is DeleteMembers
            &&& all[n + 1] is DeleteEngagements
            &&& all[n + 2] is DeleteMailbox
            &&& all[n + 3] is DeleteTasks
            &&& all[n + 4] is DeleteTeam
            &&& all[n + 5] is DeleteOrder
            &&& all[n + 6] is Announce
        }),
{
}

/// Each step shows what it does, and a deletion which conversation it deletes.
pub proof fn law_steps_are_shown(v: Seq<TeamRemovalStep>, i: int)
    requires
        0 <= i < v.len(),
    ensures
        step_views(v).len() == v.len(),
        v[i] is StopRuntime <==> step_views(v)[i] is StopRuntime,
        v[i] is DeleteConversation <==> step_views(v)[i] is DeleteConversation,
        v[i] matches TeamRemovalStep::DeleteConversation(id) ==> step_views(v)[i]
            == StepView::DeleteConversation(id@),
        v[i] is DeleteMembers <==> step_views(v)[i] is DeleteMembers,
        v[i] is DeleteEngagements <==> step_views(v)[i] is DeleteEngagements,
        v[i] is DeleteMailbox <==> step_views(v)[i] is DeleteMailbox,
        v[i] is DeleteTasks <==> step_views(v)[i] is DeleteTasks,
        v[i] is DeleteTeam <==> step_views(v)[i] is DeleteTeam,
        v[i] is DeleteOrder <==> step_views(v)[i] is DeleteOrder,
        v[i] is Announce <==> step_views(v)[i] is Announce,
{
}

} // verus!
