//! Who works in a team: the template of its agents, and the members that an
//! engagement made from it.
use crate::error::TeamError;
use crate::scheduler::TeammateRole;
use crate::search::{any, first, first_index, lemma_first_index, lemma_is_first, lemma_no_first};
use crate::service::not_found;
use crate::sessions::TeamSessionService;
use crate::teams::{load_owned_team, owned, Team};
use crate::text::{
    blank, copy_opt, is_blank, lemma_trimmed_empty, same_text, text_listed, texts, trim, trimmed,
};
use vstd::prelude::*;

verus! {

/// An agent of a team.
#[derive(Debug)]
pub struct TeamAgent {
    pub slot_id: String,
    pub name: String,
    pub role: TeammateRole,
    pub conversation_id: String,
    pub backend: String,
    pub model: String,
    pub assistant_id: Option<String>,
    pub status: Option<String>,
    pub conversation_type: Option<String>,
    pub cli_path: Option<String>,
}

impl Clone for TeamAgent {
    fn clone(&self) -> (r: Self)
        ensures
            r == *self,
    {
        TeamAgent {
            slot_id: self.slot_id.clone(),
            name: self.name.clone(),
            role: self.role,
            conversation_id: self.conversation_id.clone(),
            backend: self.backend.clone(),
            model: self.model.clone(),
            assistant_id: copy_opt(&self.assistant_id),
            status: copy_opt(&self.status),
            conversation_type: copy_opt(&self.conversation_type),
            cli_path: copy_opt(&self.cli_path),
        }
    }
}

/// A member of an engagement: its own slot and conversation, made from a slot
/// of the team's template.
#[derive(Debug)]
pub struct EngagementMember {
    pub engagement_id: String,
    pub slot_id: String,
    pub template_slot: String,
    pub role: String,
    pub conversation_id: String,
}

impl Clone for EngagementMember {
    fn clone(&self) -> (r: Self)
        ensures
            r == *self,
    {
        EngagementMember {
            engagement_id: self.engagement_id.clone(),
            slot_id: self.slot_id.clone(),
            template_slot: self.template_slot.clone(),
            role: self.role.clone(),
            conversation_id: self.conversation_id.clone(),
        }
    }
}

/// What a caller names a member by.
#[derive(Debug, Clone, Copy, PartialEq, Eq, Structural)]
pub enum MemberKey {
    Slot,
    Conversation,
}

pub open spec fn agent_has(by: MemberKey, key: Seq<char>) -> spec_fn(TeamAgent) -> bool {
    match by {
        MemberKey::Slot => |a: TeamAgent| a.slot_id@ == key,
        MemberKey::Conversation => |a: TeamAgent| a.conversation_id@ == key,
    }
}

pub open spec fn member_has(by: MemberKey, key: Seq<char>) -> spec_fn(EngagementMember) -> bool {
    match by {
        MemberKey::Slot => |m: EngagementMember| m.slot_id@ == key,
        MemberKey::Conversation => |m: EngagementMember| m.conversation_id@ == key,
    }
}

/// The agent as the member runs it: in the member's slot and conversation.
pub open spec fn merged_agent(a: TeamAgent, m: EngagementMember) -> TeamAgent {
    TeamAgent { slot_id: m.slot_id, conversation_id: m.conversation_id, ..a }
}

/// The agent that a key names. Members decide, where there are any; a team
/// without members, or whose members could not be read, goes by its template.
/// The error names what was not found.
pub open spec fn resolved(
    agents: Seq<TeamAgent>,
    members: Option<Seq<EngagementMember>>,
    by: MemberKey,
    key: Seq<char>,
) -> Result<(TeamAgent, Option<EngagementMember>), Seq<char>> {
    match members {
        Some(members) if members.len() > 0 => match first(members, member_has(by, key)) {
            Some(m) => match first(agents, agent_has(MemberKey::Slot, m.template_slot@)) {
                Some(a) => Ok((merged_agent(a, m), Some(m))),
                None => Err(m.template_slot@),
            },
            None => Err(key),
        },
        _ => match first(agents, agent_has(by, key)) {
            Some(a) => Ok((a, None)),
            None => Err(key),
        },
    }
}

/// The first agent of the template that a key names.
pub fn template_runtime_agent(agents: &[TeamAgent], by: MemberKey, key: &str) -> (r: Result<
    TeamAgent,
    TeamError,
>)
    ensures
        match first(agents@, agent_has(by, key@)) {
            Some(a) => r == Ok::<TeamAgent, TeamError>(a),
            None => r matches Err(TeamError::AgentNotFound(x)) && x@ == key@,
        },
{
    match position_of_agent(agents, by, key) {
        Some(i) => Ok(agents[i].clone()),
        None => Err(TeamError::AgentNotFound(key.to_owned())),
    }
}

fn position_of_agent(agents: &[TeamAgent], by: MemberKey, key: &str) -> (r: Option<usize>)
    ensures
        match r {
            Some(i) => first_index(agents@, agent_has(by, key@)) == Some(i as int) && i
                < agents@.len() && agent_has(by, key@)(agents@[i as int]),
            None => first_index(agents@, agent_has(by, key@)) is None,
        },
{
    let ghost p = agent_has(by, key@);
    let mut i: usize = 0;
    while i < agents.len()
        invariant
            i <= agents@.len(),
            p == agent_has(by, key@),
            forall|j: int| 0 <= j < i ==> !p(#[trigger] agents@[j]),
        decreases agents@.len() - i,
    {
        let here = match by {
            MemberKey::Slot => same_text(agents[i].slot_id.as_str(), key),
            MemberKey::Conversation => same_text(agents[i].conversation_id.as_str(), key),
        };
        if here {
            proof {
                lemma_is_first(agents@, p, i as int);
            }
            return Some(i);
        }
        i = i + 1;
    }
    proof {
        lemma_no_first(agents@, p);
    }
    None
}

fn position_of_member(members: &[EngagementMember], by: MemberKey, key: &str) -> (r: Option<usize>)
    ensures
        match r {
            Some(i) => first_index(members@, member_has(by, key@)) == Some(i as int) && i
                < members@.len() && member_has(by, key@)(members@[i as int]),
            None => first_index(members@, member_has(by, key@)) is None,
        },
{
    let ghost p = member_has(by, key@);
    let mut i: usize = 0;
    while i < members.len()
        invariant
            i <= members@.len(),
            p == member_has(by, key@),
            forall|j: int| 0 <= j < i ==> !p(#[trigger] members@[j]),
        decreases members@.len() - i,
    {
        let here = match by {
            MemberKey::Slot => same_text(members[i].slot_id.as_str(), key),
            MemberKey::Conversation => same_text(members[i].conversation_id.as_str(), key),
        };
        if here {
            proof {
                lemma_is_first(members@, p, i as int);
            }
            return Some(i);
        }
        i = i + 1;
    }
    proof {
        lemma_no_first(members@, p);
    }
    None
}

/// The members that were read; `None` where reading them failed.
pub open spec fn member_list(members: Option<&[EngagementMember]>) -> Option<
    Seq<EngagementMember>,
> {
    match members {
        Some(m) => Some(m@),
        None => None,
    }
}

/// The agent that a key names, and the member that runs it. A list of members
/// without the key is an error: the template does not step in for it.
pub fn resolve_runtime_agent(
    agents: &[TeamAgent],
    members: Option<&[EngagementMember]>,
    by: MemberKey,
    key: &str,
) -> (r: Result<(TeamAgent, Option<EngagementMember>), TeamError>)
    ensures
        match resolved(agents@, member_list(members), by, key@) {
            Ok(found) => r == Ok::<(TeamAgent, Option<EngagementMember>), TeamError>(found),
            Err(missing) => r matches Err(TeamError::AgentNotFound(x)) && x@ == missing,
        },
{
    if let Some(members) = members {
        if members.len() > 0 {
            return match position_of_member(members, by, key) {
                Some(i) => {
                    let member = members[i].clone();
                    match template_runtime_agent(
                        agents,
                        MemberKey::Slot,
                        member.template_slot.as_str(),
                    ) {
                        Ok(agent) => {
                            let mut merged = agent;
                            merged.slot_id = member.slot_id.clone();
                            merged.conversation_id = member.conversation_id.clone();
                            Ok((merged, Some(member)))
                        },
                        Err(e) => Err(e),
                    }
                },
                None => Err(TeamError::AgentNotFound(key.to_owned())),
            };
        }
    }
    match template_runtime_agent(agents, by, key) {
        Ok(agent) => Ok((agent, None)),
        Err(e) => Err(e),
    }
}

/// Where an engagement has members, nothing but a member is ever resolved: what
/// comes out runs in the slot and conversation of a member that the key names.
pub proof fn law_members_shadow_the_template(
    agents: Seq<TeamAgent>,
    members: Seq<EngagementMember>,
    by: MemberKey,
    key: Seq<char>,
)
    requires
        members.len() > 0,
    ensures
        resolved(agents, Some(members), by, key) matches Ok((a, m)) ==> m is Some
            && members.contains(m->0) && member_has(by, key)(m->0) && a.slot_id == m->0.slot_id
            && a.conversation_id == m->0.conversation_id,
        !any(members, member_has(by, key)) ==> resolved(agents, Some(members), by, key) == Err::<
            (TeamAgent, Option<EngagementMember>),
            Seq<char>,
        >(key),
{
    lemma_first_index(members, member_has(by, key));
    if let Some(i) = first_index(members, member_has(by, key)) {
        assert(members.contains(members[i]));
    }
}

/// The slot of the template that stands behind a slot: the member's, or the
/// slot itself where no member runs it.
pub open spec fn template_slot_of(member: Option<EngagementMember>, slot: Seq<char>) -> Seq<char> {
    match member {
        Some(m) => m.template_slot@,
        None => slot,
    }
}

pub fn template_slot_key(member: &Option<EngagementMember>, slot_id: &str) -> (r: String)
    ensures
        r@ == template_slot_of(*member, slot_id@),
{
    match member {
        Some(m) => m.template_slot.clone(),
        None => slot_id.to_owned(),
    }
}

/// The member that was made from a slot of the template.
pub open spec fn made_from(slot: Seq<char>) -> spec_fn(EngagementMember) -> bool {
    |m: EngagementMember| m.template_slot@ == slot
}

/// The agent as it runs after it was added: in the slot of the member that was
/// made from it, or in its own.
pub open spec fn added_agent(a: TeamAgent, members: Seq<EngagementMember>) -> TeamAgent {
    match first(members, made_from(a.slot_id@)) {
        Some(m) => merged_agent(a, m),
        None => a,
    }
}

pub fn added_runtime_agent(agent: &TeamAgent, members: &[EngagementMember]) -> (r: TeamAgent)
    ensures
        r == added_agent(*agent, members@),
{
    let ghost p = made_from(agent.slot_id@);
    let mut i: usize = 0;
    while i < members.len()
        invariant
            i <= members@.len(),
            p == made_from(agent.slot_id@),
            forall|j: int| 0 <= j < i ==> !p(#[trigger] members@[j]),
        decreases members@.len() - i,
    {
        if same_text(members[i].template_slot.as_str(), agent.slot_id.as_str()) {
            proof {
                lemma_is_first(members@, p, i as int);
            }
            let mut merged = agent.clone();
            merged.slot_id = members[i].slot_id.clone();
            merged.conversation_id = members[i].conversation_id.clone();
            return merged;
        }
        i = i + 1;
    }
    proof {
        lemma_no_first(members@, p);
    }
    agent.clone()
}

/// The agents without those in a slot.
pub fn without_slot(agents: &[TeamAgent], slot_id: &str) -> (r: Vec<TeamAgent>)
    ensures
        r@ == agents@.filter(|a: TeamAgent| a.slot_id@ != slot_id@),
{
    let ghost keep = |a: TeamAgent| a.slot_id@ != slot_id@;
    let mut r: Vec<TeamAgent> = Vec::new();
    let mut i: usize = 0;
    proof {
        reveal(Seq::filter);
        assert(agents@.take(0).filter(keep) =~= Seq::<TeamAgent>::empty());
    }
    while i < agents.len()
        invariant
            i <= agents@.len(),
            keep == (|a: TeamAgent| a.slot_id@ != slot_id@),
            r@ == agents@.take(i as int).filter(keep),
        decreases agents@.len() - i,
    {
        proof {
            reveal(Seq::filter);
            assert(agents@.take(i + 1).drop_last() =~= agents@.take(i as int));
        }
        if !same_text(agents[i].slot_id.as_str(), slot_id) {
            r.push(agents[i].clone());
        }
        i = i + 1;
    }
    assert(agents@.take(i as int) =~= agents@);
    r
}

/// An agent that leads.
pub open spec fn leads() -> spec_fn(TeamAgent) -> bool {
    |a: TeamAgent| a.role == TeammateRole::Lead
}

/// Where the first agent stands that leads.
pub fn lead_position(agents: &[TeamAgent]) -> (r: Option<usize>)
    ensures
        match r {
            Some(i) => first_index(agents@, leads()) == Some(i as int) && i < agents@.len(),
            None => first_index(agents@, leads()) is None,
        },
{
    let ghost p = leads();
    let mut i: usize = 0;
    while i < agents.len()
        invariant
            i <= agents@.len(),
            p == leads(),
            forall|j: int| 0 <= j < i ==> !p(#[trigger] agents@[j]),
        decreases agents@.len() - i,
    {
        if agents[i].role == TeammateRole::Lead {
            proof {
                lemma_is_first(agents@, p, i as int);
            }
            return Some(i);
        }
        i = i + 1;
    }
    proof {
        lemma_no_first(agents@, p);
    }
    None
}

/// The first agent that leads.
pub fn find_lead(agents: &[TeamAgent]) -> (r: Option<TeamAgent>)
    ensures
        r == first(agents@, leads()),
{
    proof {
        lemma_first_index(agents@, leads());
    }
    match lead_position(agents) {
        Some(i) => Some(agents[i].clone()),
        None => None,
    }
}

/// The conversations on which a lease of the team is renewed: those that its
/// agents have.
pub open spec fn conversations_of(agents: Seq<TeamAgent>) -> Seq<Seq<char>> {
    agents.map_values(|a: TeamAgent| a.conversation_id@)
}

/// The conversations of the agents, without blank ones.
pub fn lease_conversations(agents: &[TeamAgent]) -> (r: Vec<String>)
    ensures
        texts(r@) == conversations_of(agents@).filter(|id: Seq<char>| !is_blank(id)),
        are_leased(agents@, texts(r@)),
{
    let ghost all = conversations_of(agents@);
    let ghost keep = |id: Seq<char>| !is_blank(id);
    let mut r: Vec<String> = Vec::new();
    let mut i: usize = 0;
    proof {
        reveal(Seq::filter);
        assert(all.take(0).filter(keep) =~= Seq::<Seq<char>>::empty());
        assert(texts(r@) =~= Seq::<Seq<char>>::empty());
    }
    while i < agents.len()
        invariant
            i <= agents@.len(),
            all == conversations_of(agents@),
            keep == (|id: Seq<char>| !is_blank(id)),
            texts(r@) == all.take(i as int).filter(keep),
        decreases agents@.len() - i,
    {
        proof {
            reveal(Seq::filter);
            assert(all.take(i + 1).drop_last() =~= all.take(i as int));
            assert(all.take(i + 1).last() == agents@[i as int].conversation_id@);
        }
        if !blank(agents[i].conversation_id.as_str()) {
            let ghost before = texts(r@);
            r.push(agents[i].conversation_id.clone());
            assert(texts(r@) =~= before.push(agents@[i as int].conversation_id@));
        }
        i = i + 1;
    }
    assert(all.take(i as int) =~= all);
    r
}

/// `more` put behind `base`, each id only where it is not there yet.
pub open spec fn with_missing(base: Seq<Seq<char>>, more: Seq<Seq<char>>) -> Seq<Seq<char>>
    decreases more.len(),
{
    if more.len() == 0 {
        base
    } else {
        let before = with_missing(base, more.drop_last());
        if before.contains(more.last()) {
            before
        } else {
            before.push(more.last())
        }
    }
}

/// The conversations whose processes end with the team: those of its template,
/// then those of its running sessions that are not among them.
pub fn kill_list(agents: &[TeamAgent], live: &[String]) -> (r: Vec<String>)
    ensures
        texts(r@) == with_missing(conversations_of(agents@), texts(live@)),
{
    let ghost base = conversations_of(agents@);
    let ghost more = texts(live@);
    let mut r: Vec<String> = Vec::new();
    let mut i: usize = 0;
    while i < agents.len()
        invariant
            i <= agents@.len(),
            r@.len() == i,
            forall|k: int| 0 <= k < i ==> (#[trigger] r@[k])@ == agents@[k].conversation_id@,
        decreases agents@.len() - i,
    {
        r.push(agents[i].conversation_id.clone());
        i = i + 1;
    }
    assert(texts(r@) =~= base);
    let mut j: usize = 0;
    while j < live.len()
        invariant
            j <= live@.len(),
            more == texts(live@),
            texts(r@) == with_missing(base, more.take(j as int)),
        decreases live@.len() - j,
    {
        proof {
            assert(more.take(j + 1).drop_last() =~= more.take(j as int));
            assert(more.take(j + 1).last() == live@[j as int]@);
        }
        if !text_listed(r.as_slice(), live[j].as_str()) {
            let ghost before = texts(r@);
            r.push(live[j].clone());
            assert(texts(r@) =~= before.push(live@[j as int]@));
        }
        j = j + 1;
    }
    assert(more.take(j as int) =~= more);
    r
}

/// The list of what to end starts with the template, in its order, holds every
/// conversation that runs, and names none twice beyond the template.
pub proof fn law_kill_list(base: Seq<Seq<char>>, live: Seq<Seq<char>>)
    ensures
        base.len() <= with_missing(base, live).len(),
        with_missing(base, live).take(base.len() as int) == base,
        forall|id: Seq<char>| #[trigger]
            live.contains(id) ==> with_missing(base, live).contains(id),
        forall|id: Seq<char>| #[trigger]
            with_missing(base, live).contains(id) ==> base.contains(id) || live.contains(id),
        base.no_duplicates() ==> with_missing(base, live).no_duplicates(),
    decreases live.len(),
{
    let all = with_missing(base, live);
    if live.len() == 0 {
        assert(all.take(base.len() as int) =~= base);
    } else {
        let front = live.drop_last();
        let x = live.last();
        let before = with_missing(base, front);
        law_kill_list(base, front);
        assert(all.take(base.len() as int) =~= before.take(base.len() as int));
        assert forall|id: Seq<char>| #[trigger] live.contains(id) implies all.contains(id) by {
            let k = choose|k: int| 0 <= k < live.len() && live[k] == id;
            if k < front.len() {
                assert(front[k] == id);
                assert(front.contains(id));
                assert(before.contains(id));
                let m = choose|m: int| 0 <= m < before.len() && before[m] == id;
                assert(all[m] == id);
            } else if !before.contains(x) {
                assert(all[before.len() as int] == id);
            }
        }
        assert forall|id: Seq<char>| #[trigger] all.contains(id) implies base.contains(id)
            || live.contains(id) by {
            let k = choose|k: int| 0 <= k < all.len() && all[k] == id;
            if k < before.len() {
                assert(before[k] == id);
                assert(before.contains(id));
                if front.contains(id) {
                    let m = choose|m: int| 0 <= m < front.len() && front[m] == id;
                    assert(live[m] == id);
                }
            } else {
                assert(live[live.len() - 1] == id);
            }
        }
        if base.no_duplicates() {
            assert forall|i: int, j: int| 0 <= i < all.len() && 0 <= j < all.len() && i
                != j implies all[i] != all[j] by {
                if i < before.len() && j < before.len() {
                    assert(before[i] == all[i] && before[j] == all[j]);
                } else if i < before.len() {
                    assert(before[i] == all[i]);
                    assert(before.contains(before[i]));
                } else if j < before.len() {
                    assert(before[j] == all[j]);
                    assert(before.contains(before[j]));
                }
            }
        }
    }
}

/// Another agent of the team has the name, once names are brought into their
/// common form.
pub open spec fn name_taken(
    agents: Seq<TeamAgent>,
    normalized_names: Seq<Seq<char>>,
    template_slot: Seq<char>,
    normalized: Seq<char>,
) -> bool {
    exists|i: int|
        0 <= i < agents.len() && (#[trigger] agents[i]).slot_id@ != template_slot
            && normalized_names[i] == normalized
}

fn is_name_taken(
    agents: &[TeamAgent],
    normalized_names: &[String],
    template_slot: &str,
    normalized: &str,
) -> (r: bool)
    requires
        normalized_names@.len() == agents@.len(),
    ensures
        r == name_taken(agents@, texts(normalized_names@), template_slot@, normalized@),
{
    let mut i: usize = 0;
    while i < agents.len()
        invariant
            i <= agents@.len(),
            normalized_names@.len() == agents@.len(),
            forall|k: int|
                0 <= k < i ==> !((#[trigger] agents@[k]).slot_id@ != template_slot@ && texts(
                    normalized_names@,
                )[k] == normalized@),
        decreases agents@.len() - i,
    {
        if !same_text(agents[i].slot_id.as_str(), template_slot) && same_text(
            normalized_names[i].as_str(),
            normalized,
        ) {
            assert(texts(normalized_names@)[i as int] == normalized@);
            return true;
        }
        i = i + 1;
    }
    false
}

fn copied(agents: &[TeamAgent]) -> (r: Vec<TeamAgent>)
    ensures
        r@ == agents@,
{
    let mut r: Vec<TeamAgent> = Vec::new();
    let mut i: usize = 0;
    while i < agents.len()
        invariant
            i <= agents@.len(),
            r@ == agents@.take(i as int),
        decreases agents@.len() - i,
    {
        r.push(agents[i].clone());
        i = i + 1;
        assert(r@ =~= agents@.take(i as int));
    }
    assert(r@ =~= agents@);
    r
}

/// What a request to rename an agent comes to: the agents with the new name.
pub open spec fn rename_outcome(
    agents: Seq<TeamAgent>,
    members: Option<Seq<EngagementMember>>,
    slot: Seq<char>,
    name: Seq<char>,
    normalized: Seq<char>,
    normalized_names: Seq<Seq<char>>,
    r: Result<Vec<TeamAgent>, TeamError>,
) -> bool {
    match resolved(agents, members, MemberKey::Slot, slot) {
        Err(missing) => r matches Err(TeamError::AgentNotFound(x)) && x@ == missing,
        Ok((_, member)) => {
            let template_slot = template_slot_of(member, slot);
            let at = first_index(agents, agent_has(MemberKey::Slot, template_slot));
            if normalized.len() == 0 {
                r matches Err(TeamError::InvalidRequest(x)) && x@
                    == "rename_agent.name is empty after normalization"@
            } else if name_taken(agents, normalized_names, template_slot, normalized) {
                r matches Err(TeamError::DuplicateAgentName(x)) && x@ == name
            } else {
                r matches Ok(after) && at is Some && after@.len() == agents.len()
                    && after@[at->0].name@ == name && after@ == agents.update(
                    at->0,
                    TeamAgent { name: after@[at->0].name, ..agents[at->0] },
                )
            }
        },
    }
}

impl TeamSessionService {
    /// Renames an agent of an owned team and hands out its agents with the new
    /// name. The slot is the one that the caller sees; `normalized` and
    /// `normalized_names` are the common forms of the new name and of the names
    /// of the agents.
    pub fn rename_agent(
        team: Option<&Team>,
        user_id: &str,
        team_id: &str,
        members: Option<&[EngagementMember]>,
        slot_id: &str,
        name: &str,
        normalized: &str,
        normalized_names: &[String],
    ) -> (r: Result<Vec<TeamAgent>, TeamError>)
        requires
            team matches Some(t) ==> normalized_names@.len() == t.agents@.len(),
        ensures
            if !owned(team, user_id@, team_id@) {
                r matches Err(e) && not_found(e, team_id@)
            } else {
                rename_outcome(
                    (team->0).agents@,
                    member_list(members),
                    slot_id@,
                    name@,
                    normalized@,
                    texts(normalized_names@),
                    r,
                )
            },
    {
        let team = match load_owned_team(team, user_id, team_id) {
            Ok(t) => t,
            Err(e) => return Err(e),
        };
        let agents = team.agents.as_slice();
        let member = match resolve_runtime_agent(agents, members, MemberKey::Slot, slot_id) {
            Ok(found) => found.1,
            Err(e) => return Err(e),
        };
        let template_slot = template_slot_key(&member, slot_id);
        if normalized.is_empty() {
            return Err(
                TeamError::InvalidRequest(
                    "rename_agent.name is empty after normalization".to_owned(),
                ),
            );
        }
        if is_name_taken(agents, normalized_names, template_slot.as_str(), normalized) {
            return Err(TeamError::DuplicateAgentName(name.to_owned()));
        }
        match position_of_agent(agents, MemberKey::Slot, template_slot.as_str()) {
            Some(i) => {
                let mut after = copied(agents);
                after[i].name = name.to_owned();
                assert(after@ =~= agents@.update(
                    i as int,
                    TeamAgent { name: after@[i as int].name, ..agents@[i as int] },
                ));
                Ok(after)
            },
            None => Err(TeamError::AgentNotFound(slot_id.to_owned())),
        }
    }
}

/// Why the model of a member is stored.
#[derive(Debug, Clone, Copy, PartialEq, Eq, Structural)]
pub enum ModelPersistTrigger {
    /// Somebody asked for it. Nothing runs with it yet, so a runtime that is
    /// starting is a reason to refuse.
    ExplicitRequest,
    /// The runtime has switched already. The roster has to follow.
    RuntimeConfirmed,
}

impl ModelPersistTrigger {
    pub open spec fn text(self) -> Seq<char> {
        match self {
            ModelPersistTrigger::ExplicitRequest => "explicit_request"@,
            ModelPersistTrigger::RuntimeConfirmed => "runtime_confirmed"@,
        }
    }

    pub fn as_str(self) -> (r: &'static str)
        ensures
            r@ == self.text(),
    {
        match self {
            ModelPersistTrigger::ExplicitRequest => "explicit_request",
            ModelPersistTrigger::RuntimeConfirmed => "runtime_confirmed",
        }
    }
}

/// The error that a member's runtime is starting.
pub open spec fn is_starting_error(e: TeamError, team: Seq<char>, a: TeamAgent) -> bool {
    e matches TeamError::MemberRuntimeStarting { team_id, slot_id, conversation_id } && team_id@
        == team && slot_id@ == a.slot_id@ && conversation_id@ == a.conversation_id@
}

pub fn member_runtime_starting_error(team_id: &str, member: &TeamAgent) -> (r: TeamError)
    ensures
        is_starting_error(r, team_id@, *member),
{
    TeamError::MemberRuntimeStarting {
        team_id: team_id.to_owned(),
        slot_id: member.slot_id.clone(),
        conversation_id: member.conversation_id.clone(),
    }
}

/// A model that is to be stored: for which conversation, and the agents of the
/// team with it.
#[derive(Debug)]
pub struct StoredModel {
    pub conversation_id: String,
    pub agents: Vec<TeamAgent>,
}

/// What a request to store the model of a member comes to.
pub open spec fn model_outcome(
    team: Seq<char>,
    agents: Seq<TeamAgent>,
    members: Option<Seq<EngagementMember>>,
    slot: Seq<char>,
    model: Seq<char>,
    trigger: ModelPersistTrigger,
    starting: Seq<Seq<char>>,
    r: Result<StoredModel, TeamError>,
) -> bool {
    match resolved(agents, members, MemberKey::Slot, slot) {
        Err(missing) => r matches Err(TeamError::AgentNotFound(x)) && x@ == missing,
        Ok((a, member)) => if trigger == ModelPersistTrigger::ExplicitRequest && starting.contains(
            a.slot_id@,
        ) {
            r matches Err(e) && is_starting_error(e, team, a)
        } else {
            let at = first_index(
                agents,
                agent_has(MemberKey::Slot, template_slot_of(member, slot)),
            );
            r matches Ok(s) && s.conversation_id@ == a.conversation_id@ && at is Some
                && s.agents@.len() == agents.len() && s.agents@[at->0].model@ == model && s.agents@
                == agents.update(
                at->0,
                TeamAgent { model: s.agents@[at->0].model, ..agents[at->0] },
            )
        },
    }
}

/// Puts the model of a member of an owned team into its template and says for
/// which conversation it is to be stored. `starting` are the slots whose
/// runtimes are starting.
pub fn persist_member_model_selection(
    team: Option<&Team>,
    user_id: &str,
    team_id: &str,
    members: Option<&[EngagementMember]>,
    slot_id: &str,
    model: &str,
    trigger: ModelPersistTrigger,
    starting: &[String],
) -> (r: Result<StoredModel, TeamError>)
    ensures
        if !owned(team, user_id@, team_id@) {
            r matches Err(e) && not_found(e, team_id@)
        } else {
            model_outcome(
                team_id@,
                (team->0).agents@,
                member_list(members),
                slot_id@,
                model@,
                trigger,
                texts(starting@),
                r,
            )
        },
{
    let team = match load_owned_team(team, user_id, team_id) {
        Ok(t) => t,
        Err(e) => return Err(e),
    };
    let agents = team.agents.as_slice();
    let (resolved_agent, member) = match resolve_runtime_agent(
        agents,
        members,
        MemberKey::Slot,
        slot_id,
    ) {
        Ok(found) => found,
        Err(e) => return Err(e),
    };
    if trigger == ModelPersistTrigger::ExplicitRequest && text_listed(
        starting,
        resolved_agent.slot_id.as_str(),
    ) {
        return Err(member_runtime_starting_error(team_id, &resolved_agent));
    }
    let template_slot = template_slot_key(&member, slot_id);
    match position_of_agent(agents, MemberKey::Slot, template_slot.as_str()) {
        Some(i) => {
            let mut after = copied(agents);
            after[i].model = model.to_owned();
            assert(after@ =~= agents@.update(
                i as int,
                TeamAgent { model: after@[i as int].model, ..agents@[i as int] },
            ));
            Ok(StoredModel { conversation_id: resolved_agent.conversation_id, agents: after })
        },
        None => Err(TeamError::AgentNotFound(slot_id.to_owned())),
    }
}

impl TeamSessionService {
    /// Stores the model that somebody asked for, without surrounding white space.
    /// A blank one is refused before the team is looked at.
    pub fn update_agent_model(
        team: Option<&Team>,
        user_id: &str,
        team_id: &str,
        members: Option<&[EngagementMember]>,
        slot_id: &str,
        model: &str,
        starting: &[String],
    ) -> (r: Result<StoredModel, TeamError>)
        ensures
            if is_blank(model@) {
                r matches Err(TeamError::InvalidRequest(x)) && x@ == "model must not be empty"@
            } else if !owned(team, user_id@, team_id@) {
                r matches Err(e) && not_found(e, team_id@)
            } else {
                model_outcome(
                    team_id@,
                    (team->0).agents@,
                    member_list(members),
                    slot_id@,
                    trimmed(model@),
                    ModelPersistTrigger::ExplicitRequest,
                    texts(starting@),
                    r,
                )
            },
    {
        let model_text = trim(model);
        proof {
            lemma_trimmed_empty(model@);
        }
        if model_text.is_empty() {
            return Err(TeamError::InvalidRequest("model must not be empty".to_owned()));
        }
        persist_member_model_selection(
            team,
            user_id,
            team_id,
            members,
            slot_id,
            model_text,
            ModelPersistTrigger::ExplicitRequest,
            starting,
        )
    }
}

/// The template slot that a slot of a team stands for: its own, or that of the first
/// member with that slot where the team has members.
pub open spec fn stands_for(
    agents: Seq<TeamAgent>,
    members: Option<Seq<EngagementMember>>,
    slot: Seq<char>,
    template: Seq<char>,
) -> bool {
    &&& exists|i: int| 0 <= i < agents.len() && (#[trigger] agents[i]).slot_id@ == template
    &&& match members {
        Some(ms) if ms.len() > 0 => exists|k: int|
            {
                &&& 0 <= k < ms.len()
                &&& (#[trigger] ms[k]).slot_id@ == slot
                &&& ms[k].template_slot@ == template
                &&& forall|j: int| 0 <= j < k ==> (#[trigger] ms[j]).slot_id@ != slot
            },
        _ => template == slot,
    }
}

pub(crate) proof fn lemma_stands_for(
    agents: Seq<TeamAgent>,
    members: Option<Seq<EngagementMember>>,
    slot: Seq<char>,
    template: Seq<char>,
)
    requires
        stands_for(agents, members, slot, template),
    ensures
        resolved(agents, members, MemberKey::Slot, slot) matches Ok((a, m)) && template_slot_of(
            m,
            slot,
        ) == template && a.slot_id@ == slot && a.role == agents[first_index(
            agents,
            agent_has(MemberKey::Slot, template),
        )->0].role,
        first_index(agents, agent_has(MemberKey::Slot, template)) matches Some(at) && 0 <= at
            < agents.len() && agents[at].slot_id@ == template && forall|j: int|
            0 <= j < at ==> (#[trigger] agents[j]).slot_id@ != template,
{
    let p = agent_has(MemberKey::Slot, template);
    let i = choose|i: int| 0 <= i < agents.len() && (#[trigger] agents[i]).slot_id@ == template;
    assert(p(agents[i]));
    lemma_first_index(agents, p);
    let at = first_index(agents, p)->0;
    assert forall|j: int| 0 <= j < at implies (#[trigger] agents[j]).slot_id@ != template by {
        assert(!p(agents[j]));
    }
    if let Some(ms) = members {
        if ms.len() > 0 {
            let q = member_has(MemberKey::Slot, slot);
            let k = choose|k: int|
                {
                    &&& 0 <= k < ms.len()
                    &&& (#[trigger] ms[k]).slot_id@ == slot
                    &&& ms[k].template_slot@ == template
                    &&& forall|j: int| 0 <= j < k ==> (#[trigger] ms[j]).slot_id@ != slot
                };
            assert forall|j: int| 0 <= j < k implies !q(#[trigger] ms[j]) by {
                assert(ms[j].slot_id@ != slot);
            }
            lemma_is_first(ms, q, k);
        }
    }
}

/// A slot that stands for no agent of the template is not found.
pub proof fn law_unknown_slot_is_not_found(
    agents: Seq<TeamAgent>,
    members: Option<Seq<EngagementMember>>,
    slot: Seq<char>,
)
    ensures
        resolved(agents, members, MemberKey::Slot, slot) is Ok <==> exists|template: Seq<char>|
            #[trigger]
            stands_for(agents, members, slot, template),
{
    if exists|template: Seq<char>| #[trigger] stands_for(agents, members, slot, template) {
        let template = choose|template: Seq<char>| #[trigger]
            stands_for(agents, members, slot, template);
        lemma_stands_for(agents, members, slot, template);
    }
    if let Ok((a, m)) = resolved(agents, members, MemberKey::Slot, slot) {
        let template = template_slot_of(m, slot);
        lemma_first_index(agents, agent_has(MemberKey::Slot, template));
        let at = first_index(agents, agent_has(MemberKey::Slot, template))->0;
        assert(agents[at].slot_id@ == template);
        if let Some(ms) = members {
            if ms.len() > 0 {
                let q = member_has(MemberKey::Slot, slot);
                lemma_first_index(ms, q);
                let k = first_index(ms, q)->0;
                assert(ms[k].slot_id@ == slot);
                assert forall|j: int| 0 <= j < k implies (#[trigger] ms[j]).slot_id@ != slot by {
                    assert(!q(ms[j]));
                }
            }
        }
        assert(stands_for(agents, members, slot, template));
    }
}

/// The agent that runs a slot has the slot and the conversation of its member, and
/// everything else from the template.
pub proof fn law_member_runs_its_template(
    agents: Seq<TeamAgent>,
    members: Seq<EngagementMember>,
    by: MemberKey,
    key: Seq<char>,
)
    requires
        members.len() > 0,
        resolved(agents, Some(members), by, key) is Ok,
    ensures
        resolved(agents, Some(members), by, key) matches Ok((a, m)) && m is Some
            && members.contains(m->0) && (by == MemberKey::Slot ==> m->0.slot_id@ == key) && (by
            == MemberKey::Conversation ==> m->0.conversation_id@ == key) && a.slot_id
            == m->0.slot_id && a.conversation_id == m->0.conversation_id && exists|i: int|
            {
                &&& 0 <= i < agents.len()
                &&& (#[trigger] agents[i]).slot_id@ == m->0.template_slot@
                &&& a.name == agents[i].name
                &&& a.role == agents[i].role
                &&& a.backend == agents[i].backend
                &&& a.model == agents[i].model
                &&& a.assistant_id == agents[i].assistant_id
                &&& a.status == agents[i].status
                &&& a.conversation_type == agents[i].conversation_type
                &&& a.cli_path == agents[i].cli_path
            },
{
    law_members_shadow_the_template(agents, members, by, key);
    let m = first(members, member_has(by, key))->0;
    let p = agent_has(MemberKey::Slot, m.template_slot@);
    lemma_first_index(agents, p);
    assert(agents[first_index(agents, p)->0].slot_id@ == m.template_slot@);
}

/// Only the name of the agent that the slot stands for changes, and only to a name
/// that is not empty and that no other agent has, both once they are normalized.
pub proof fn law_rename_changes_one_name(
    agents: Seq<TeamAgent>,
    members: Option<Seq<EngagementMember>>,
    slot: Seq<char>,
    template: Seq<char>,
    name: Seq<char>,
    normalized: Seq<char>,
    normalized_names: Seq<Seq<char>>,
    r: Result<Vec<TeamAgent>, TeamError>,
)
    requires
        rename_outcome(agents, members, slot, name, normalized, normalized_names, r),
        stands_for(agents, members, slot, template),
    ensures
        r is Ok <==> normalized != Seq::<char>::empty() && forall|i: int|
            0 <= i < agents.len() && (#[trigger] agents[i]).slot_id@ != template
                ==> normalized_names[i] != normalized,
        r matches Ok(after) ==> after@.len() == agents.len() && exists|at: int|
            {
                &&& 0 <= at < agents.len()
                &&& agents[at].slot_id@ == template
                &&& (#[trigger] after@[at]).name@ == name
                &&& after@[at].slot_id == agents[at].slot_id
                &&& after@[at].role == agents[at].role
                &&& after@[at].conversation_id == agents[at].conversation_id
                &&& after@[at].backend == agents[at].backend
                &&& after@[at].model == agents[at].model
                &&& after@[at].assistant_id == agents[at].assistant_id
                &&& after@[at].status == agents[at].status
                &&& forall|j: int| 0 <= j < agents.len() && j != at ==> after@[j] == agents[j]
            },
        normalized != Seq::<char>::empty() && r is Err ==> (
        r matches Err(TeamError::DuplicateAgentName(x)) && x@ == name),
{
    lemma_stands_for(agents, members, slot, template);
    assert(normalized.len() == 0 ==> normalized =~= Seq::<char>::empty());
    if let Ok(after) = r {
        let at = first_index(agents, agent_has(MemberKey::Slot, template))->0;
        assert(after@[at].name@ == name);
    }
    assert(name_taken(agents, normalized_names, template, normalized) <==> exists|i: int|
        0 <= i < agents.len() && (#[trigger] agents[i]).slot_id@ != template && normalized_names[i]
            == normalized);
}

/// Only the model of the agent that the slot stands for changes. A request for it is
/// refused while that slot is starting; what a runtime confirmed is always stored.
pub proof fn law_model_change_touches_one_agent(
    team: Seq<char>,
    agents: Seq<TeamAgent>,
    members: Option<Seq<EngagementMember>>,
    slot: Seq<char>,
    template: Seq<char>,
    model: Seq<char>,
    trigger: ModelPersistTrigger,
    starting: Seq<Seq<char>>,
    r: Result<StoredModel, TeamError>,
)
    requires
        model_outcome(team, agents, members, slot, model, trigger, starting, r),
        stands_for(agents, members, slot, template),
    ensures
        r is Ok <==> trigger == ModelPersistTrigger::RuntimeConfirmed || !starting.contains(slot),
        r is Err ==> (r matches Err(TeamError::MemberRuntimeStarting {
            team_id,
            slot_id,
            conversation_id,
        }) && team_id@ == team && slot_id@ == slot),
        r matches Ok(s) ==> s.agents@.len() == agents.len() && exists|at: int|
            {
                &&& 0 <= at < agents.len()
                &&& agents[at].slot_id@ == template
                &&& (#[trigger] s.agents@[at]).model@ == model
                &&& s.agents@[at].slot_id == agents[at].slot_id
                &&& s.agents@[at].name == agents[at].name
                &&& s.agents@[at].role == agents[at].role
                &&& s.agents@[at].conversation_id == agents[at].conversation_id
                &&& s.agents@[at].backend == agents[at].backend
                &&& s.agents@[at].assistant_id == agents[at].assistant_id
                &&& s.agents@[at].status == agents[at].status
                &&& forall|j: int| 0 <= j < agents.len() && j != at ==> s.agents@[j] == agents[j]
            },
{
    lemma_stands_for(agents, members, slot, template);
    if let Ok(s) = r {
        let at = first_index(agents, agent_has(MemberKey::Slot, template))->0;
        assert(s.agents@[at].model@ == model);
    }
}

/// The lead of a team is the first of its agents with that role.
pub proof fn law_first_lead_leads(agents: Seq<TeamAgent>)
    ensures
        match first_index(agents, leads()) {
            Some(i) => 0 <= i < agents.len() && agents[i].role == TeammateRole::Lead && first(
                agents,
                leads(),
            ) == Some(agents[i]) && forall|j: int|
                0 <= j < i ==> (#[trigger] agents[j]).role == TeammateRole::Teammate,
            None => first(agents, leads()) is None && forall|j: int|
                0 <= j < agents.len() ==> (#[trigger] agents[j]).role == TeammateRole::Teammate,
        },
{
    let p = leads();
    lemma_first_index(agents, p);
    let n = match first_index(agents, p) {
        Some(i) => i,
        None => agents.len() as int,
    };
    assert forall|j: int| 0 <= j < n implies (#[trigger] agents[j]).role
        == TeammateRole::Teammate by {
        assert(!p(agents[j]));
    }
}

/// An agent that was added runs as the first member that was made from its slot; one
/// that nobody was made from runs as it is.
pub proof fn law_added_agent_runs_as_its_member(
    agent: TeamAgent,
    members: Seq<EngagementMember>,
    k: int,
)
    ensures
        0 <= k < members.len() && members[k].template_slot@ == agent.slot_id@ && (forall|j: int|
            0 <= j < k ==> (#[trigger] members[j]).template_slot@ != agent.slot_id@) ==> {
            let r = added_agent(agent, members);
            &&& r.slot_id == members[k].slot_id
            &&& r.conversation_id == members[k].conversation_id
            &&& r.name == agent.name
            &&& r.role == agent.role
            &&& r.backend == agent.backend
            &&& r.model == agent.model
        },
        (forall|j: int|
            0 <= j < members.len() ==> (#[trigger] members[j]).template_slot@ != agent.slot_id@)
            ==> added_agent(agent, members) == agent,
{
    let p = made_from(agent.slot_id@);
    if 0 <= k < members.len() && members[k].template_slot@ == agent.slot_id@ && (forall|j: int|
        0 <= j < k ==> (#[trigger] members[j]).template_slot@ != agent.slot_id@) {
        assert forall|j: int| 0 <= j < k implies !p(#[trigger] members[j]) by {
            assert(members[j].template_slot@ != agent.slot_id@);
        }
        lemma_is_first(members, p, k);
    }
    if forall|j: int|
        0 <= j < members.len() ==> (#[trigger] members[j]).template_slot@ != agent.slot_id@ {
        assert forall|j: int| 0 <= j < members.len() implies !p(#[trigger] members[j]) by {
            assert(members[j].template_slot@ != agent.slot_id@);
        }
        lemma_no_first(members, p);
    }
}

/// The members of an engagement are those that were given, where any were.
pub proof fn law_members_are_those_given(members: Option<&[EngagementMember]>)
    ensures
        member_list(members) is Some <==> members is Some,
        members is Some ==> member_list(members) == Some(members->0@),
{
}

/// The ids are those of the conversations of the agents, but for the blank ones.
pub open spec fn are_leased(agents: Seq<TeamAgent>, ids: Seq<Seq<char>>) -> bool {
    ids == conversations_of(agents).filter(|id: Seq<char>| !is_blank(id))
}

/// Every agent that has a conversation keeps it leased, and nothing else is leased.
pub proof fn law_agents_keep_their_leases(
    agents: Seq<TeamAgent>,
    ids: Seq<Seq<char>>,
    id: Seq<char>,
)
    requires
        are_leased(agents, ids),
    ensures
        ids.contains(id) <==> !is_blank(id) && exists|i: int|
            0 <= i < agents.len() && (#[trigger] agents[i]).conversation_id@ == id,
{
    let all = conversations_of(agents);
    let p = |id: Seq<char>| !is_blank(id);
    crate::task_board::lemma_filter_contains(all, p, id);
    if all.contains(id) {
        let i = choose|i: int| 0 <= i < all.len() && all[i] == id;
        assert(agents[i].conversation_id@ == id);
    }
    if exists|i: int| 0 <= i < agents.len() && (#[trigger] agents[i]).conversation_id@ == id {
        let i = choose|i: int|
            0 <= i < agents.len() && (#[trigger] agents[i]).conversation_id@ == id;
        assert(all[i] == id);
    }
}

} // verus!
