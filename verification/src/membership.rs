//! Binding a team to a project: one engagement for each project, with one member
//! of its own for each slot of the team's template.
use crate::engagements::EngagementRow;
use crate::roster::{EngagementMember, TeamAgent};
use crate::scheduler::TeammateRole;
use crate::search::{any, first_index, lemma_first_index, lemma_is_first, lemma_no_first};
use crate::text::same_text;
use vstd::prelude::*;

verus! {

/// What a new engagement starts with: an id that none has, and how it works.
#[derive(Debug)]
pub struct FreshEngagement {
    pub id: String,
    pub process: String,
    pub status: String,
}

/// The engagement binds the team to the project.
pub open spec fn binds(team: Seq<char>, project: Seq<char>) -> spec_fn(EngagementRow) -> bool {
    |e: EngagementRow| e.team_id@ == team && e.project_id@ == project
}

/// Where the engagement stands that binds the team to the project.
pub open spec fn bound_at(rows: Seq<EngagementRow>, team: Seq<char>, project: Seq<char>) -> Option<
    int,
> {
    first_index(rows, binds(team, project))
}

/// Finding the engagement, or making it where there is none.
pub open spec fn engaged(
    before: Seq<EngagementRow>,
    after: Seq<EngagementRow>,
    team: Seq<char>,
    project: Seq<char>,
    workspace: Seq<char>,
    fresh: FreshEngagement,
    row: EngagementRow,
) -> bool {
    match bound_at(before, team, project) {
        Some(i) => after == before && row == before[i],
        None => {
            &&& after == before.push(row)
            &&& row.id == fresh.id
            &&& row.team_id@ == team
            &&& row.project_id@ == project
            &&& row.workspace@ == workspace
            &&& row.process == fresh.process
            &&& row.status == fresh.status
        },
    }
}

/// The engagement of the team for the project, made where there is none yet. A
/// found one keeps its workspace.
pub fn find_or_create_engagement(
    rows: &mut Vec<EngagementRow>,
    team_id: &str,
    project_id: &str,
    workspace: &str,
    fresh: &FreshEngagement,
) -> (r: EngagementRow)
    ensures
        engaged(old(rows)@, final(rows)@, team_id@, project_id@, workspace@, *fresh, r),
{
    let ghost p = binds(team_id@, project_id@);
    let mut i: usize = 0;
    while i < rows.len()
        invariant
            i <= rows@.len(),
            rows@ == old(rows)@,
            p == binds(team_id@, project_id@),
            forall|j: int| 0 <= j < i ==> !p(#[trigger] rows@[j]),
        decreases rows@.len() - i,
    {
        if same_text(rows[i].team_id.as_str(), team_id) && same_text(
            rows[i].project_id.as_str(),
            project_id,
        ) {
            proof {
                lemma_is_first(rows@, p, i as int);
            }
            return rows[i].clone();
        }
        i = i + 1;
    }
    proof {
        lemma_no_first(rows@, p);
    }
    let row = EngagementRow {
        id: fresh.id.clone(),
        team_id: team_id.to_owned(),
        project_id: project_id.to_owned(),
        workspace: workspace.to_owned(),
        process: fresh.process.clone(),
        status: fresh.status.clone(),
    };
    rows.push(row.clone());
    row
}

/// The member works in the engagement, in that slot of the template.
pub open spec fn fills(engagement: Seq<char>, slot: Seq<char>) -> spec_fn(EngagementMember) -> bool {
    |m: EngagementMember| m.engagement_id@ == engagement && m.template_slot@ == slot
}

/// No member of the engagement fills the slot of the agent.
pub open spec fn vacant(members: Seq<EngagementMember>, engagement: Seq<char>) -> spec_fn(
    TeamAgent,
) -> bool {
    |a: TeamAgent| !any(members, fills(engagement, a.slot_id@))
}

/// The agents of the template whose slots no member of the engagement fills.
pub open spec fn lacking(
    template: Seq<TeamAgent>,
    members: Seq<EngagementMember>,
    engagement: Seq<char>,
) -> Seq<TeamAgent> {
    template.filter(vacant(members, engagement))
}

fn is_filled(members: &[EngagementMember], engagement_id: &str, slot_id: &str) -> (r: bool)
    ensures
        r == any(members@, fills(engagement_id@, slot_id@)),
{
    let ghost p = fills(engagement_id@, slot_id@);
    let mut i: usize = 0;
    while i < members.len()
        invariant
            i <= members@.len(),
            p == fills(engagement_id@, slot_id@),
            forall|j: int| 0 <= j < i ==> !p(#[trigger] members@[j]),
        decreases members@.len() - i,
    {
        if same_text(members[i].engagement_id.as_str(), engagement_id) && same_text(
            members[i].template_slot.as_str(),
            slot_id,
        ) {
            assert(p(members@[i as int]));
            return true;
        }
        i = i + 1;
    }
    false
}

/// The agents of the template for which the engagement has no member yet.
pub fn missing_members(
    template: &[TeamAgent],
    members: &[EngagementMember],
    engagement_id: &str,
) -> (r: Vec<TeamAgent>)
    ensures
        r@ == lacking(template@, members@, engagement_id@),
{
    let ghost keep = vacant(members@, engagement_id@);
    let mut r: Vec<TeamAgent> = Vec::new();
    let mut i: usize = 0;
    proof {
        reveal(Seq::filter);
        assert(template@.take(0).filter(keep) =~= Seq::<TeamAgent>::empty());
    }
    while i < template.len()
        invariant
            i <= template@.len(),
            keep == vacant(members@, engagement_id@),
            r@ == template@.take(i as int).filter(keep),
        decreases template@.len() - i,
    {
        proof {
            reveal(Seq::filter);
            assert(template@.take(i + 1).drop_last() =~= template@.take(i as int));
        }
        if !is_filled(members, engagement_id, template[i].slot_id.as_str()) {
            r.push(template[i].clone());
        }
        i = i + 1;
    }
    assert(template@.take(i as int) =~= template@);
    r
}

/// What a new member works with: a slot and a conversation of its own.
#[derive(Debug)]
pub struct MintedMember {
    pub slot_id: String,
    pub conversation_id: String,
}

/// How the role of a member is written.
pub open spec fn role_text(role: TeammateRole) -> Seq<char> {
    match role {
        TeammateRole::Lead => "lead"@,
        TeammateRole::Teammate => "teammate"@,
    }
}

/// The member was made for the slot of the agent, with what was minted for it.
pub open spec fn is_made(
    m: EngagementMember,
    engagement: Seq<char>,
    agent: TeamAgent,
    minted: MintedMember,
) -> bool {
    &&& m.engagement_id@ == engagement
    &&& m.template_slot == agent.slot_id
    &&& m.role@ == role_text(agent.role)
    &&& m.slot_id == minted.slot_id
    &&& m.conversation_id == minted.conversation_id
}

/// Behind the members that were there stands one more for each agent, in order.
pub open spec fn joined(
    before: Seq<EngagementMember>,
    after: Seq<EngagementMember>,
    engagement: Seq<char>,
    missing: Seq<TeamAgent>,
    minted: Seq<MintedMember>,
) -> bool {
    &&& after.len() == before.len() + missing.len()
    &&& forall|i: int| 0 <= i < before.len() ==> #[trigger] after[i] == before[i]
    &&& forall|i: int|
        before.len() <= i < after.len() ==> is_made(
            #[trigger] after[i],
            engagement,
            missing[i - before.len()],
            minted[i - before.len()],
        )
}

/// Gives the engagement a member for each slot of the template that has none.
/// Those that it has stay as they are, and so do those of other engagements.
pub fn ensure_engagement_members(
    members: &mut Vec<EngagementMember>,
    template: &[TeamAgent],
    engagement_id: &str,
    minted: &[MintedMember],
)
    requires
        minted@.len() == lacking(template@, old(members)@, engagement_id@).len(),
    ensures
        joined(
            old(members)@,
            final(members)@,
            engagement_id@,
            lacking(template@, old(members)@, engagement_id@),
            minted@,
        ),
{
    let missing = missing_members(template, members.as_slice(), engagement_id);
    let ghost before = members@;
    let mut i: usize = 0;
    while i < missing.len()
        invariant
            i <= missing@.len(),
            missing@.len() == minted@.len(),
            joined(before, members@, engagement_id@, missing@.take(i as int), minted@),
        decreases missing@.len() - i,
    {
        let ghost so_far = members@;
        let role = match missing[i].role {
            TeammateRole::Lead => "lead".to_owned(),
            TeammateRole::Teammate => "teammate".to_owned(),
        };
        members.push(
            EngagementMember {
                engagement_id: engagement_id.to_owned(),
                slot_id: minted[i].slot_id.clone(),
                template_slot: missing[i].slot_id.clone(),
                role,
                conversation_id: minted[i].conversation_id.clone(),
            },
        );
        proof {
            let next = missing@.take(i + 1);
            assert forall|k: int| before.len() <= k < members@.len() implies is_made(
                #[trigger] members@[k],
                engagement_id@,
                next[k - before.len()],
                minted@[k - before.len()],
            ) by {
                if k < so_far.len() {
                    assert(members@[k] == so_far[k]);
                    assert(next[k - before.len()] == missing@.take(i as int)[k - before.len()]);
                }
            }
        }
        i = i + 1;
    }
    assert(missing@.take(i as int) =~= missing@);
}

/// No two engagements have the same id.
pub open spec fn distinct_ids(rows: Seq<EngagementRow>) -> bool {
    forall|i: int, j: int|
        0 <= i < j < rows.len() ==> (#[trigger] rows[i]).id@ != (#[trigger] rows[j]).id@
}

/// No engagement has the id.
pub open spec fn unused_id(rows: Seq<EngagementRow>, id: Seq<char>) -> bool {
    forall|i: int| 0 <= i < rows.len() ==> (#[trigger] rows[i]).id@ != id
}

/// Binding a team to a project again finds the same engagement and changes
/// nothing.
pub proof fn law_engaging_again_finds_the_same(
    before: Seq<EngagementRow>,
    after: Seq<EngagementRow>,
    last: Seq<EngagementRow>,
    team: Seq<char>,
    project: Seq<char>,
    workspace: Seq<char>,
    other_workspace: Seq<char>,
    fresh: FreshEngagement,
    other_fresh: FreshEngagement,
    row: EngagementRow,
    again: EngagementRow,
)
    requires
        engaged(before, after, team, project, workspace, fresh, row),
        engaged(after, last, team, project, other_workspace, other_fresh, again),
    ensures
        last == after,
        again == row,
{
    lemma_bound(before, after, team, project, workspace, fresh, row);
}

/// After the binding, the engagement that binds the team to the project is the
/// one that was returned.
proof fn lemma_bound(
    before: Seq<EngagementRow>,
    after: Seq<EngagementRow>,
    team: Seq<char>,
    project: Seq<char>,
    workspace: Seq<char>,
    fresh: FreshEngagement,
    row: EngagementRow,
)
    requires
        engaged(before, after, team, project, workspace, fresh, row),
    ensures
        bound_at(after, team, project) matches Some(i) && 0 <= i < after.len() && after[i] == row
            && row.team_id@ == team && row.project_id@ == project,
{
    let p = binds(team, project);
    lemma_first_index(before, p);
    if bound_at(before, team, project) is None {
        assert forall|j: int| 0 <= j < before.len() implies !p(#[trigger] after[j]) by {
            assert(after[j] == before[j]);
        }
        lemma_is_first(after, p, before.len() as int);
    }
}

/// Two projects of one team have two engagements, each of which stays the one
/// of its project.
pub proof fn law_another_project_is_another_engagement(
    before: Seq<EngagementRow>,
    after: Seq<EngagementRow>,
    last: Seq<EngagementRow>,
    team: Seq<char>,
    project: Seq<char>,
    other_project: Seq<char>,
    workspace: Seq<char>,
    other_workspace: Seq<char>,
    fresh: FreshEngagement,
    other_fresh: FreshEngagement,
    row: EngagementRow,
    other: EngagementRow,
)
    requires
        project != other_project,
        distinct_ids(before),
        unused_id(before, fresh.id@),
        engaged(before, after, team, project, workspace, fresh, row),
        unused_id(after, other_fresh.id@),
        engaged(after, last, team, other_project, other_workspace, other_fresh, other),
    ensures
        row.id@ != other.id@,
        distinct_ids(last),
        bound_at(last, team, project) matches Some(i) && last[i] == row,
        bound_at(last, team, other_project) matches Some(i) && last[i] == other,
{
    lemma_bound(before, after, team, project, workspace, fresh, row);
    lemma_bound(after, last, team, other_project, other_workspace, other_fresh, other);
    let i = bound_at(after, team, project)->0;
    let j = bound_at(last, team, other_project)->0;
    let p = binds(team, project);
    lemma_first_index(after, p);
    assert forall|k: int| 0 <= k < i implies !p(#[trigger] last[k]) by {
        assert(last[k] == after[k]);
    }
    assert(last[i] == after[i]);
    lemma_is_first(last, p, i);
    assert(distinct_ids(after));
    assert forall|a: int, b: int| 0 <= a < b < last.len() implies (#[trigger] last[a]).id@ != (
    #[trigger] last[b]).id@ by {
        assert(last[a] == after[a]);
        if b < after.len() {
            assert(last[b] == after[b]);
        }
    }
    if i < j {
        assert(last[i].id@ != last[j].id@);
    } else {
        assert(i != j);
        assert(last[j].id@ != last[i].id@);
    }
}

/// No two agents of the template have the same slot.
pub open spec fn distinct_slots(template: Seq<TeamAgent>) -> bool {
    forall|i: int, j: int|
        0 <= i < j < template.len() ==> (#[trigger] template[i]).slot_id@ != (
        #[trigger] template[j]).slot_id@
}

/// No slot is filled twice in one engagement.
pub open spec fn filled_once(members: Seq<EngagementMember>) -> bool {
    forall|i: int, j: int|
        0 <= i < j < members.len() ==> (#[trigger] members[i]).engagement_id@ != (
        #[trigger] members[j]).engagement_id@ || members[i].template_slot@
            != members[j].template_slot@
}

/// What `lacking` holds: agents of the template, in its order, whose slots are
/// vacant, and all of them.
proof fn lemma_lacking(
    template: Seq<TeamAgent>,
    members: Seq<EngagementMember>,
    engagement: Seq<char>,
)
    ensures
        lacking(template, members, engagement).len() <= template.len(),
        forall|i: int|
            0 <= i < lacking(template, members, engagement).len() ==> vacant(members, engagement)(
                #[trigger] lacking(template, members, engagement)[i],
            ) && template.contains(lacking(template, members, engagement)[i]),
        forall|j: int|
            0 <= j < template.len() && vacant(members, engagement)(#[trigger] template[j])
                ==> lacking(template, members, engagement).contains(template[j]),
        distinct_slots(template) ==> distinct_slots(lacking(template, members, engagement)),
    decreases template.len(),
{
    reveal(Seq::filter);
    let keep = vacant(members, engagement);
    if template.len() > 0 {
        let front = template.drop_last();
        let less = lacking(front, members, engagement);
        let all = lacking(template, members, engagement);
        lemma_lacking(front, members, engagement);
        assert(all == if keep(template.last()) {
            less.push(template.last())
        } else {
            less
        });
        assert forall|i: int| 0 <= i < all.len() implies keep(#[trigger] all[i])
            && template.contains(all[i]) by {
            if i < less.len() {
                assert(all[i] == less[i]);
                let k = choose|k: int| 0 <= k < front.len() && front[k] == less[i];
                assert(template[k] == all[i]);
            } else {
                assert(template[template.len() - 1] == all[i]);
            }
        }
        assert forall|j: int| 0 <= j < template.len() && keep(
            #[trigger] template[j],
        ) implies all.contains(template[j]) by {
            if j < front.len() {
                assert(front[j] == template[j]);
                let k = choose|k: int| 0 <= k < less.len() && less[k] == front[j];
                assert(all[k] == template[j]);
            } else {
                assert(all[less.len() as int] == template[j]);
            }
        }
        if distinct_slots(template) {
            assert(distinct_slots(front)) by {
                assert forall|i: int, j: int| 0 <= i < j < front.len() implies (
                #[trigger] front[i]).slot_id@ != (#[trigger] front[j]).slot_id@ by {
                    assert(front[i] == template[i] && front[j] == template[j]);
                }
            }
            assert forall|i: int, j: int| 0 <= i < j < all.len() implies (
            #[trigger] all[i]).slot_id@ != (#[trigger] all[j]).slot_id@ by {
                assert(all[i] == less[i]);
                if j < less.len() {
                    assert(all[j] == less[j]);
                } else {
                    let k = choose|k: int| 0 <= k < front.len() && front[k] == less[i];
                    assert(template[k].slot_id@ != template[template.len() - 1].slot_id@);
                }
            }
        }
    }
}

/// Afterwards every slot of the template is filled in the engagement, and still
/// none twice.
pub proof fn law_every_slot_has_one_member(
    template: Seq<TeamAgent>,
    before: Seq<EngagementMember>,
    after: Seq<EngagementMember>,
    engagement: Seq<char>,
    minted: Seq<MintedMember>,
)
    requires
        distinct_slots(template),
        filled_once(before),
        joined(before, after, engagement, lacking(template, before, engagement), minted),
    ensures
        filled_once(after),
        forall|i: int|
            0 <= i < template.len() ==> any(
                after,
                fills(engagement, (#[trigger] template[i]).slot_id@),
            ),
{
    let missing = lacking(template, before, engagement);
    lemma_lacking(template, before, engagement);
    assert forall|i: int| 0 <= i < template.len() implies any(
        after,
        fills(engagement, (#[trigger] template[i]).slot_id@),
    ) by {
        let p = fills(engagement, template[i].slot_id@);
        if vacant(before, engagement)(template[i]) {
            let k = choose|k: int| 0 <= k < missing.len() && missing[k] == template[i];
            assert(p(after[before.len() + k]));
        } else {
            let k = choose|k: int| 0 <= k < before.len() && p(#[trigger] before[k]);
            assert(p(after[k]));
        }
    }
    assert forall|i: int, j: int| 0 <= i < j < after.len() implies (
    #[trigger] after[i]).engagement_id@ != (#[trigger] after[j]).engagement_id@
        || after[i].template_slot@ != after[j].template_slot@ by {
        if j < before.len() {
            assert(after[i] == before[i] && after[j] == before[j]);
        } else if i < before.len() {
            assert(after[i] == before[i]);
            let a = missing[j - before.len()];
            assert(vacant(before, engagement)(a));
            assert(!fills(engagement, a.slot_id@)(before[i]));
        } else {
            assert(missing[i - before.len()].slot_id@ != missing[j - before.len()].slot_id@);
        }
    }
}

/// Where every slot is filled, nothing is lacking: ensuring the members of an
/// engagement again changes nothing.
pub proof fn law_ensuring_members_again_adds_none(
    template: Seq<TeamAgent>,
    before: Seq<EngagementMember>,
    after: Seq<EngagementMember>,
    last: Seq<EngagementMember>,
    engagement: Seq<char>,
    minted: Seq<MintedMember>,
    minted_again: Seq<MintedMember>,
)
    requires
        distinct_slots(template),
        filled_once(before),
        joined(before, after, engagement, lacking(template, before, engagement), minted),
        joined(after, last, engagement, lacking(template, after, engagement), minted_again),
    ensures
        lacking(template, after, engagement).len() == 0,
        last == after,
{
    law_every_slot_has_one_member(template, before, after, engagement, minted);
    lemma_lacking(template, after, engagement);
    let missing = lacking(template, after, engagement);
    if missing.len() > 0 {
        assert(vacant(after, engagement)(missing[0]));
        let k = choose|k: int| 0 <= k < template.len() && template[k] == missing[0];
        assert(any(after, fills(engagement, template[k].slot_id@)));
    }
    assert(last =~= after);
}

/// No two members share a slot or a conversation.
pub open spec fn disjoint(members: Seq<EngagementMember>) -> bool {
    forall|i: int, j: int|
        0 <= i < j < members.len() ==> (#[trigger] members[i]).slot_id@ != (
        #[trigger] members[j]).slot_id@ && members[i].conversation_id@
            != members[j].conversation_id@
}

/// What was minted is new: no member has it, and no two of it are the same.
pub open spec fn newly_minted(minted: Seq<MintedMember>, members: Seq<EngagementMember>) -> bool {
    &&& forall|i: int, j: int|
        0 <= i < j < minted.len() ==> (#[trigger] minted[i]).slot_id@ != (
        #[trigger] minted[j]).slot_id@ && minted[i].conversation_id@ != minted[j].conversation_id@
    &&& forall|i: int, j: int|
        0 <= i < minted.len() && 0 <= j < members.len() ==> (#[trigger] minted[i]).slot_id@ != (
        #[trigger] members[j]).slot_id@ && minted[i].conversation_id@
            != members[j].conversation_id@
}

/// No member works in a conversation of the template.
pub open spec fn apart_from_template(
    members: Seq<EngagementMember>,
    template: Seq<TeamAgent>,
) -> bool {
    forall|i: int, j: int|
        0 <= i < members.len() && 0 <= j < template.len() ==> (
        #[trigger] members[i]).conversation_id@ != (#[trigger] template[j]).conversation_id@
}

/// Members of engagements never share a slot or a conversation, neither within
/// one engagement nor across two, and none of them works in a conversation of
/// the template.
pub proof fn law_engagements_share_no_member(
    template: Seq<TeamAgent>,
    before: Seq<EngagementMember>,
    after: Seq<EngagementMember>,
    engagement: Seq<char>,
    minted: Seq<MintedMember>,
)
    requires
        minted.len() == lacking(template, before, engagement).len(),
        joined(before, after, engagement, lacking(template, before, engagement), minted),
        disjoint(before),
        newly_minted(minted, before),
        apart_from_template(before, template),
        forall|i: int, j: int|
            0 <= i < minted.len() && 0 <= j < template.len() ==> (
            #[trigger] minted[i]).conversation_id@ != (#[trigger] template[j]).conversation_id@,
    ensures
        disjoint(after),
        apart_from_template(after, template),
{
    let n = before.len();
    assert forall|i: int, j: int| 0 <= i < j < after.len() implies (#[trigger] after[i]).slot_id@
        != (#[trigger] after[j]).slot_id@ && after[i].conversation_id@
        != after[j].conversation_id@ by {
        if j < n {
            assert(after[i] == before[i] && after[j] == before[j]);
        } else if i < n {
            assert(after[i] == before[i]);
            assert(minted[j - n].slot_id@ != before[i].slot_id@);
        } else {
            assert(minted[i - n].slot_id@ != minted[j - n].slot_id@);
        }
    }
    assert forall|i: int, j: int| 0 <= i < after.len() && 0 <= j < template.len() implies (
    #[trigger] after[i]).conversation_id@ != (#[trigger] template[j]).conversation_id@ by {
        if i < n {
            assert(after[i] == before[i]);
        } else {
            assert(minted[i - n].conversation_id@ != template[j].conversation_id@);
        }
    }
}

/// The member works in the engagement.
pub open spec fn works_in(engagement: Seq<char>) -> spec_fn(EngagementMember) -> bool {
    |m: EngagementMember| m.engagement_id@ == engagement
}

/// Ensuring the members of one engagement, whatever the template has become,
/// leaves those of every other engagement as they were.
pub proof fn law_other_engagements_keep_their_members(
    before: Seq<EngagementMember>,
    after: Seq<EngagementMember>,
    engagement: Seq<char>,
    missing: Seq<TeamAgent>,
    minted: Seq<MintedMember>,
    other: Seq<char>,
)
    requires
        joined(before, after, engagement, missing, minted),
        other != engagement,
    ensures
        after.filter(works_in(other)) == before.filter(works_in(other)),
    decreases missing.len(),
{
    reveal(Seq::filter);
    if missing.len() == 0 {
        assert(after =~= before);
    } else {
        let front = after.drop_last();
        let less = missing.drop_last();
        assert forall|i: int| before.len() <= i < front.len() implies is_made(
            #[trigger] front[i],
            engagement,
            less[i - before.len()],
            minted[i - before.len()],
        ) by {
            assert(front[i] == after[i]);
        }
        assert(forall|i: int| 0 <= i < before.len() ==> #[trigger] front[i] == after[i]);
        law_other_engagements_keep_their_members(before, front, engagement, less, minted, other);
        assert(is_made(
            after[after.len() - 1],
            engagement,
            missing[missing.len() - 1],
            minted[missing.len() - 1],
        ));
    }
}

/// All engagements and their members.
pub struct Bindings {
    pub rows: Seq<EngagementRow>,
    pub members: Seq<EngagementMember>,
}

/// Exactly one member has the property.
pub open spec fn exactly_one(
    members: Seq<EngagementMember>,
    p: spec_fn(EngagementMember) -> bool,
) -> bool {
    any(members, p) && forall|i: int, j: int|
        0 <= i < members.len() && 0 <= j < members.len() && p(#[trigger] members[i]) && p(
            #[trigger] members[j],
        ) ==> i == j
}

impl Bindings {
    /// No two engagements share an id, no two members a slot or a conversation,
    /// no slot of the template is filled twice in one engagement, and nobody
    /// works in a conversation of the template.
    pub open spec fn well_kept(self, template: Seq<TeamAgent>) -> bool {
        &&& distinct_ids(self.rows)
        &&& filled_once(self.members)
        &&& disjoint(self.members)
        &&& apart_from_template(self.members, template)
    }

    /// Each slot of the template has exactly one member in the engagement.
    pub open spec fn staffed(self, template: Seq<TeamAgent>, engagement: Seq<char>) -> bool {
        forall|i: int|
            0 <= i < template.len() ==> exactly_one(
                self.members,
                fills(engagement, (#[trigger] template[i]).slot_id@),
            )
    }
}

/// What is asked for: a team with its template, a project and its workspace,
/// and what is at hand for a new engagement and new members.
pub struct Ensuring {
    pub team: Seq<char>,
    pub template: Seq<TeamAgent>,
    pub project: Seq<char>,
    pub workspace: Seq<char>,
    pub fresh: FreshEngagement,
    pub minted: Seq<MintedMember>,
}

impl Ensuring {
    /// The team is bound to the project by the engagement of that row, and the
    /// engagement has its members.
    pub open spec fn done(self, before: Bindings, after: Bindings, row: EngagementRow) -> bool {
        let missing = lacking(self.template, before.members, row.id@);
        &&& engaged(
            before.rows,
            after.rows,
            self.team,
            self.project,
            self.workspace,
            self.fresh,
            row,
        )
        &&& self.minted.len() == missing.len()
        &&& joined(before.members, after.members, row.id@, missing, self.minted)
    }

    /// What is at hand is new: nobody has its ids.
    pub open spec fn is_new(self, before: Bindings) -> bool {
        &&& unused_id(before.rows, self.fresh.id@)
        &&& newly_minted(self.minted, before.members)
        &&& forall|i: int, j: int|
            0 <= i < self.minted.len() && 0 <= j < self.template.len() ==> (
            #[trigger] self.minted[i]).conversation_id@ != (
            #[trigger] self.template[j]).conversation_id@
    }
}

/// Ensuring an engagement keeps all bindings apart, and gives the engagement
/// exactly one member for each slot of the template.
pub proof fn law_ensured_engagement_is_staffed(
    q: Ensuring,
    before: Bindings,
    after: Bindings,
    row: EngagementRow,
)
    requires
        distinct_slots(q.template),
        before.well_kept(q.template),
        q.is_new(before),
        q.done(before, after, row),
    ensures
        after.well_kept(q.template),
        after.staffed(q.template, row.id@),
        row.team_id@ == q.team,
        row.project_id@ == q.project,
        bound_at(before.rows, q.team, q.project) is None ==> row.workspace@ == q.workspace,
{
    let e = row.id@;
    lemma_bound(before.rows, after.rows, q.team, q.project, q.workspace, q.fresh, row);
    law_every_slot_has_one_member(q.template, before.members, after.members, e, q.minted);
    law_engagements_share_no_member(q.template, before.members, after.members, e, q.minted);
    assert(distinct_ids(after.rows)) by {
        let rows = after.rows;
        assert forall|a: int, b: int| 0 <= a < b < rows.len() implies (#[trigger] rows[a]).id@ != (
        #[trigger] rows[b]).id@ by {
            assert(rows[a] == before.rows[a]);
            if b < before.rows.len() {
                assert(rows[b] == before.rows[b]);
            }
        }
    }
    let m = after.members;
    assert forall|i: int| 0 <= i < q.template.len() implies exactly_one(
        m,
        fills(e, (#[trigger] q.template[i]).slot_id@),
    ) by {
        let p = fills(e, q.template[i].slot_id@);
        assert forall|j: int, k: int|
            0 <= j < m.len() && 0 <= k < m.len() && p(#[trigger] m[j]) && p(
                #[trigger] m[k],
            ) implies j == k by {
            if j < k {
                assert(m[j].engagement_id@ != m[k].engagement_id@ || m[j].template_slot@
                    != m[k].template_slot@);
            } else if k < j {
                assert(m[k].engagement_id@ != m[j].engagement_id@ || m[k].template_slot@
                    != m[j].template_slot@);
            }
        }
    }
}

/// Ensuring the same engagement again, with whatever is at hand, gives the same
/// row and changes neither engagements nor members.
pub proof fn law_ensuring_again_changes_nothing(
    q: Ensuring,
    again: Ensuring,
    before: Bindings,
    after: Bindings,
    last: Bindings,
    row: EngagementRow,
    found: EngagementRow,
)
    requires
        distinct_slots(q.template),
        before.well_kept(q.template),
        q.done(before, after, row),
        again.team == q.team,
        again.project == q.project,
        again.template == q.template,
        again.done(after, last, found),
    ensures
        found == row,
        last == after,
{
    law_engaging_again_finds_the_same(
        before.rows,
        after.rows,
        last.rows,
        q.team,
        q.project,
        q.workspace,
        again.workspace,
        q.fresh,
        again.fresh,
        row,
        found,
    );
    law_ensuring_members_again_adds_none(
        q.template,
        before.members,
        after.members,
        last.members,
        row.id@,
        q.minted,
        again.minted,
    );
}

/// Two projects of one team get two engagements. Both are staffed, no member of
/// one shares a slot or a conversation with a member of the other, and the
/// second leaves the row and the members of the first as they were.
pub proof fn law_two_projects_are_kept_apart(
    q: Ensuring,
    other: Ensuring,
    before: Bindings,
    after: Bindings,
    last: Bindings,
    row: EngagementRow,
    other_row: EngagementRow,
    i: int,
    j: int,
)
    requires
        distinct_slots(q.template),
        before.well_kept(q.template),
        q.is_new(before),
        q.done(before, after, row),
        other.team == q.team,
        other.project != q.project,
        other.template == q.template,
        other.is_new(after),
        other.done(after, last, other_row),
    ensures
        row.id@ != other_row.id@,
        bound_at(last.rows, q.team, q.project) matches Some(k) && last.rows[k] == row,
        last.members.filter(works_in(row.id@)) == after.members.filter(works_in(row.id@)),
        after.staffed(q.template, row.id@),
        last.staffed(q.template, other_row.id@),
        last.well_kept(q.template),
        0 <= i < last.members.len() && 0 <= j < last.members.len() && works_in(row.id@)(
            last.members[i],
        ) && works_in(other_row.id@)(last.members[j]) ==> last.members[i].slot_id@
            != last.members[j].slot_id@ && last.members[i].conversation_id@
            != last.members[j].conversation_id@,
{
    law_ensured_engagement_is_staffed(q, before, after, row);
    law_ensured_engagement_is_staffed(other, after, last, other_row);
    law_another_project_is_another_engagement(
        before.rows,
        after.rows,
        last.rows,
        q.team,
        q.project,
        other.project,
        q.workspace,
        other.workspace,
        q.fresh,
        other.fresh,
        row,
        other_row,
    );
    law_other_engagements_keep_their_members(
        after.members,
        last.members,
        other_row.id@,
        lacking(q.template, after.members, other_row.id@),
        other.minted,
        row.id@,
    );
    let m = last.members;
    if 0 <= i < m.len() && 0 <= j < m.len() && works_in(row.id@)(m[i]) && works_in(other_row.id@)(
        m[j],
    ) {
        assert(i != j);
        if i < j {
            assert(m[i].slot_id@ != m[j].slot_id@);
        } else {
            assert(m[j].slot_id@ != m[i].slot_id@);
        }
    }
}

/// A project has one engagement of the team: where one binds them, the first such is
/// handed out and nothing changes; where none does, one is added at the end, with the
/// project, the workspace and what was minted for it.
pub proof fn law_engagement_is_found_or_added(
    before: Seq<EngagementRow>,
    after: Seq<EngagementRow>,
    team: Seq<char>,
    project: Seq<char>,
    workspace: Seq<char>,
    fresh: FreshEngagement,
    row: EngagementRow,
)
    requires
        engaged(before, after, team, project, workspace, fresh, row),
    ensures
        row.team_id@ == team,
        row.project_id@ == project,
        (exists|i: int|
            0 <= i < before.len() && (#[trigger] before[i]).team_id@ == team
                && before[i].project_id@ == project) ==> after == before && before.contains(row),
        !(exists|i: int|
            0 <= i < before.len() && (#[trigger] before[i]).team_id@ == team
                && before[i].project_id@ == project) ==> after == before.push(row) && row.id
            == fresh.id && row.workspace@ == workspace && row.process == fresh.process && row.status
            == fresh.status,
{
    let p = binds(team, project);
    lemma_first_index(before, p);
    if exists|i: int|
        0 <= i < before.len() && (#[trigger] before[i]).team_id@ == team && before[i].project_id@
            == project {
        let i = choose|i: int|
            0 <= i < before.len() && (#[trigger] before[i]).team_id@ == team
                && before[i].project_id@ == project;
        assert(p(before[i]));
        let k = first_index(before, p)->0;
        assert(before[k] == row);
    } else if let Some(k) = first_index(before, p) {
        assert(before[k].team_id@ == team);
    }
}

/// The members that are made are those for the agents of the template whose slot no
/// member of the engagement fills, in the order of the template, each with the role of
/// its agent and with what was minted for it.
pub proof fn law_new_members_stand_for_unfilled_slots(
    template: Seq<TeamAgent>,
    before: Seq<EngagementMember>,
    after: Seq<EngagementMember>,
    engagement: Seq<char>,
    minted: Seq<MintedMember>,
)
    requires
        joined(before, after, engagement, lacking(template, before, engagement), minted),
    ensures
        ({
            let missing = template.filter(
                |a: TeamAgent|
                    forall|i: int|
                        0 <= i < before.len() ==> (#[trigger] before[i]).engagement_id@ != engagement
                            || before[i].template_slot@ != a.slot_id@,
            );
            &&& after.len() == before.len() + missing.len()
            &&& after.take(before.len() as int) == before
            &&& forall|k: int|
                0 <= k < missing.len() ==> {
                    let m = after[before.len() + k];
                    &&& m.engagement_id@ == engagement
                    &&& m.template_slot@ == (#[trigger] missing[k]).slot_id@
                    &&& m.slot_id@ == minted[k].slot_id@
                    &&& m.conversation_id@ == minted[k].conversation_id@
                    &&& missing[k].role == TeammateRole::Lead ==> m.role@ == "lead"@
                    &&& missing[k].role == TeammateRole::Teammate ==> m.role@ == "teammate"@
                }
        }),
{
    let p = vacant(before, engagement);
    let q = |a: TeamAgent|
        forall|i: int|
            0 <= i < before.len() ==> (#[trigger] before[i]).engagement_id@ != engagement
                || before[i].template_slot@ != a.slot_id@;
    assert forall|n: int| 0 <= n < template.len() implies p(#[trigger] template[n]) == q(
        template[n],
    ) by {
        let f = fills(engagement, template[n].slot_id@);
        if !p(template[n]) {
            let i = choose|i: int| 0 <= i < before.len() && f(#[trigger] before[i]);
            assert(before[i].engagement_id@ == engagement);
        } else {
            assert forall|i: int| 0 <= i < before.len() implies (#[trigger] before[i]).engagement_id@
                != engagement || before[i].template_slot@ != template[n].slot_id@ by {
                assert(!f(before[i]));
            }
        }
    }
    crate::search::lemma_filter_same(template, p, q);
    assert(after.take(before.len() as int) =~= before);
    let missing = template.filter(q);
    assert forall|k: int| 0 <= k < missing.len() implies {
        let m = after[before.len() + k];
        &&& m.engagement_id@ == engagement
        &&& m.template_slot@ == (#[trigger] missing[k]).slot_id@
        &&& m.slot_id@ == minted[k].slot_id@
        &&& m.conversation_id@ == minted[k].conversation_id@
        &&& missing[k].role == TeammateRole::Lead ==> m.role@ == "lead"@
        &&& missing[k].role == TeammateRole::Teammate ==> m.role@ == "teammate"@
    } by {
        assert(is_made(after[before.len() + k], engagement, missing[k], minted[k]));
    }
}

} // verus!
