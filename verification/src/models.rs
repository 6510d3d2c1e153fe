//! Bringing the models of a roster in line with what its conversations run.
use crate::roster::TeamAgent;
use crate::text::{is_blank, lemma_trimmed_empty, opt_text, same_text, trim, trimmed};
use vstd::prelude::*;

verus! {

/// What a conversation says of its model: the one that its runtime confirmed,
/// and the one that the next runtime would start with.
#[derive(Debug)]
pub struct ModelFacts {
    pub confirmed_model_id: Option<String>,
    pub runtime_seed_model_id: Option<String>,
}

/// A place at which a model is to be stored.
#[derive(Debug)]
pub struct ModelFix {
    pub id: String,
    pub model: String,
}

impl View for ModelFix {
    type V = (Seq<char>, Seq<char>);

    open spec fn view(&self) -> (Seq<char>, Seq<char>) {
        (self.id@, self.model@)
    }
}

pub open spec fn fixes(v: Seq<ModelFix>) -> Seq<(Seq<char>, Seq<char>)> {
    v.map_values(|f: ModelFix| f@)
}

/// The model that the runtime confirmed, without surrounding white space;
/// `None` where there is none or it is blank.
pub open spec fn confirmed(f: ModelFacts) -> Option<Seq<char>> {
    match f.confirmed_model_id {
        Some(m) if !is_blank(m@) => Some(trimmed(m@)),
        _ => None,
    }
}

/// The next runtime would start with another model than the confirmed one.
pub open spec fn seed_differs(f: ModelFacts) -> bool {
    confirmed(f) is Some && opt_text(f.runtime_seed_model_id) != confirmed(f)
}

/// The roster names another model than the confirmed one.
pub open spec fn roster_differs(a: TeamAgent, f: ModelFacts) -> bool {
    confirmed(f) matches Some(m) && a.model@ != m
}

/// The conversations whose next runtime has to start with another model.
pub open spec fn seed_fixes(agents: Seq<TeamAgent>, facts: Seq<ModelFacts>) -> Seq<
    (Seq<char>, Seq<char>),
>
    decreases agents.len(),
{
    if agents.len() == 0 {
        Seq::empty()
    } else {
        let front = seed_fixes(agents.drop_last(), facts);
        let f = facts[agents.len() - 1];
        if seed_differs(f) {
            front.push((agents.last().conversation_id@, confirmed(f)->0))
        } else {
            front
        }
    }
}

/// The slots of which anything was out of line, with their models.
pub open spec fn repaired_slots(agents: Seq<TeamAgent>, facts: Seq<ModelFacts>) -> Seq<
    (Seq<char>, Seq<char>),
>
    decreases agents.len(),
{
    if agents.len() == 0 {
        Seq::empty()
    } else {
        let front = repaired_slots(agents.drop_last(), facts);
        let f = facts[agents.len() - 1];
        if seed_differs(f) || roster_differs(agents.last(), f) {
            front.push((agents.last().slot_id@, confirmed(f)->0))
        } else {
            front
        }
    }
}

/// The agent with the confirmed model, and nothing else changed.
pub open spec fn repaired_agent(before: TeamAgent, f: ModelFacts, after: TeamAgent) -> bool {
    &&& after == (TeamAgent { model: after.model, ..before })
    &&& after.model@ == match confirmed(f) {
        Some(m) => m,
        None => before.model@,
    }
}

/// What is to be stored so that everything names the confirmed models.
#[derive(Debug)]
pub struct ModelRepairs {
    pub seeds: Vec<ModelFix>,
    pub repaired: Vec<ModelFix>,
    pub roster_changed: bool,
}

fn confirmed_model(f: &ModelFacts) -> (r: Option<String>)
    ensures
        opt_text(r) == confirmed(*f),
{
    match &f.confirmed_model_id {
        Some(m) => {
            let text = trim(m.as_str());
            proof {
                lemma_trimmed_empty(m@);
            }
            if text.is_empty() {
                None
            } else {
                Some(text.to_owned())
            }
        },
        None => None,
    }
}

/// Gives every agent the model that its conversation confirmed. `facts` are
/// those of the conversations, in the order of the agents.
pub fn reconcile_legacy_team_models(agents: &mut Vec<TeamAgent>, facts: &[ModelFacts]) -> (r:
    ModelRepairs)
    requires
        facts@.len() == old(agents)@.len(),
    ensures
        final(agents)@.len() == old(agents)@.len(),
        forall|i: int|
            0 <= i < old(agents)@.len() ==> repaired_agent(
                old(agents)@[i],
                facts@[i],
                #[trigger] final(agents)@[i],
            ),
        fixes(r.seeds@) == seed_fixes(old(agents)@, facts@),
        fixes(r.repaired@) == repaired_slots(old(agents)@, facts@),
        r.roster_changed <==> exists|i: int|
            0 <= i < old(agents)@.len() && roster_differs(#[trigger] old(agents)@[i], facts@[i]),
{
    let ghost start = agents@;
    let mut seeds: Vec<ModelFix> = Vec::new();
    let mut repaired: Vec<ModelFix> = Vec::new();
    let mut roster_changed = false;
    let mut i: usize = 0;
    assert(fixes(seeds@) =~= seed_fixes(start.take(0), facts@));
    assert(fixes(repaired@) =~= repaired_slots(start.take(0), facts@));
    while i < agents.len()
        invariant
            i <= agents@.len(),
            agents@.len() == start.len(),
            facts@.len() == start.len(),
            forall|k: int|
                0 <= k < i ==> repaired_agent(start[k], facts@[k], #[trigger] agents@[k]),
            forall|k: int| i <= k < start.len() ==> #[trigger] agents@[k] == start[k],
            fixes(seeds@) == seed_fixes(start.take(i as int), facts@),
            fixes(repaired@) == repaired_slots(start.take(i as int), facts@),
            roster_changed <==> exists|k: int|
                0 <= k < i && roster_differs(#[trigger] start[k], facts@[k]),
        decreases start.len() - i,
    {
        let ghost sf = fixes(seeds@);
        let ghost rf = fixes(repaired@);
        proof {
            assert(start.take(i + 1).drop_last() =~= start.take(i as int));
            assert(start.take(i + 1).last() == start[i as int]);
            assert(agents@[i as int] == start[i as int]);
        }
        if let Some(model) = confirmed_model(&facts[i]) {
            let seed_changed = match &facts[i].runtime_seed_model_id {
                Some(seed) => !same_text(seed.as_str(), model.as_str()),
                None => true,
            };
            let agent_changed = !same_text(agents[i].model.as_str(), model.as_str());
            if seed_changed {
                seeds.push(ModelFix { id: agents[i].conversation_id.clone(), model: model.clone() });
                assert(fixes(seeds@) =~= sf.push((start[i as int].conversation_id@, model@)));
            }
            if seed_changed || agent_changed {
                repaired.push(ModelFix { id: agents[i].slot_id.clone(), model: model.clone() });
                assert(fixes(repaired@) =~= rf.push((start[i as int].slot_id@, model@)));
            }
            if agent_changed {
                assert(roster_differs(start[i as int], facts@[i as int]));
                roster_changed = true;
                agents[i].model = model;
            }
        }
        i = i + 1;
    }
    assert(start.take(i as int) =~= start);
    ModelRepairs { seeds, repaired, roster_changed }
}

/// The facts of a conversation once its seed was stored: what was confirmed is
/// the same, and the next runtime starts with it where anything was.
pub open spec fn seed_stored(f: ModelFacts, g: ModelFacts) -> bool {
    &&& confirmed(g) == confirmed(f)
    &&& opt_text(g.runtime_seed_model_id) == if seed_differs(f) {
        confirmed(f)
    } else {
        opt_text(f.runtime_seed_model_id)
    }
}

/// What was repaired is in line: repairing it once more changes no agent, stores
/// no seed and repairs no slot.
pub proof fn law_repairing_again_changes_nothing(
    before: Seq<TeamAgent>,
    after: Seq<TeamAgent>,
    facts: Seq<ModelFacts>,
    again: Seq<ModelFacts>,
)
    requires
        before.len() == facts.len(),
        before.len() == after.len(),
        before.len() == again.len(),
        forall|i: int|
            0 <= i < before.len() ==> repaired_agent(before[i], facts[i], #[trigger] after[i]),
        forall|i: int| 0 <= i < before.len() ==> seed_stored(facts[i], #[trigger] again[i]),
    ensures
        forall|i: int| 0 <= i < after.len() ==> !roster_differs(#[trigger] after[i], again[i]),
        seed_fixes(after, again).len() == 0,
        repaired_slots(after, again).len() == 0,
{
    assert forall|i: int| 0 <= i < after.len() implies !roster_differs(#[trigger] after[i], again[i])
        && !seed_differs(again[i]) by {
        assert(seed_stored(facts[i], again[i]));
        assert(repaired_agent(before[i], facts[i], after[i]));
    }
    lemma_in_line(after, again);
}

proof fn lemma_in_line(agents: Seq<TeamAgent>, facts: Seq<ModelFacts>)
    requires
        agents.len() <= facts.len(),
        forall|i: int|
            0 <= i < agents.len() ==> !roster_differs(#[trigger] agents[i], facts[i])
                && !seed_differs(facts[i]),
    ensures
        seed_fixes(agents, facts).len() == 0,
        repaired_slots(agents, facts).len() == 0,
    decreases agents.len(),
{
    if agents.len() > 0 {
        let front = agents.drop_last();
        assert forall|i: int| 0 <= i < front.len() implies !roster_differs(
            #[trigger] front[i],
            facts[i],
        ) && !seed_differs(facts[i]) by {
            assert(front[i] == agents[i]);
        }
        lemma_in_line(front, facts);
        assert(!roster_differs(agents[agents.len() - 1], facts[agents.len() - 1]));
    }
}

/// The positions of a roster at which a conversation confirmed a model and `differs`
/// holds, in order.
pub open spec fn positions(n: nat, differs: spec_fn(int) -> bool) -> Seq<int> {
    Seq::new(n, |i: int| i).filter(differs)
}

/// What the seed of a conversation says is not what the conversation confirmed, white
/// space around it aside.
pub open spec fn seed_is_off(facts: Seq<ModelFacts>) -> spec_fn(int) -> bool {
    |i: int|
        facts[i].confirmed_model_id is Some && !is_blank(facts[i].confirmed_model_id->0@) && (
        facts[i].runtime_seed_model_id is None || facts[i].runtime_seed_model_id->0@ != trimmed(
            facts[i].confirmed_model_id->0@,
        ))
}

/// As `seed_is_off`, or what the roster says is not what was confirmed.
pub open spec fn seed_or_roster_is_off(
    agents: Seq<TeamAgent>,
    facts: Seq<ModelFacts>,
) -> spec_fn(int) -> bool {
    |i: int|
        facts[i].confirmed_model_id is Some && !is_blank(facts[i].confirmed_model_id->0@) && (
        facts[i].runtime_seed_model_id is None || facts[i].runtime_seed_model_id->0@ != trimmed(
            facts[i].confirmed_model_id->0@,
        ) || agents[i].model@ != trimmed(facts[i].confirmed_model_id->0@))
}

/// A conversation gets the model that it confirmed as its seed exactly where the seed
/// says otherwise. A slot is repaired exactly where the seed or the roster does. Both
/// come in the order of the roster.
pub proof fn law_repairs_follow_what_was_confirmed(agents: Seq<TeamAgent>, facts: Seq<ModelFacts>)
    requires
        agents.len() <= facts.len(),
    ensures
        seed_fixes(agents, facts) == positions(agents.len(), seed_is_off(facts)).map_values(
            |i: int| (agents[i].conversation_id@, trimmed(facts[i].confirmed_model_id->0@)),
        ),
        repaired_slots(agents, facts) == positions(
            agents.len(),
            seed_or_roster_is_off(agents, facts),
        ).map_values(|i: int| (agents[i].slot_id@, trimmed(facts[i].confirmed_model_id->0@))),
{
    lemma_repairs(agents, facts, agents.len());
    assert(agents.take(agents.len() as int) =~= agents);
}

proof fn lemma_repairs(agents: Seq<TeamAgent>, facts: Seq<ModelFacts>, n: nat)
    requires
        n <= agents.len() <= facts.len(),
    ensures
        seed_fixes(agents.take(n as int), facts) == positions(n, seed_is_off(facts)).map_values(
            |i: int| (agents[i].conversation_id@, trimmed(facts[i].confirmed_model_id->0@)),
        ),
        repaired_slots(agents.take(n as int), facts) == positions(
            n,
            seed_or_roster_is_off(agents, facts),
        ).map_values(|i: int| (agents[i].slot_id@, trimmed(facts[i].confirmed_model_id->0@))),
    decreases n,
{
    reveal(Seq::filter);
    let seed = |i: int|
        (agents[i].conversation_id@, trimmed(facts[i].confirmed_model_id->0@));
    let slot = |i: int| (agents[i].slot_id@, trimmed(facts[i].confirmed_model_id->0@));
    let p = seed_is_off(facts);
    let q = seed_or_roster_is_off(agents, facts);
    let part = agents.take(n as int);
    if n == 0 {
        assert(positions(n, p) =~= Seq::<int>::empty());
        assert(positions(n, q) =~= Seq::<int>::empty());
    } else {
        let m = (n - 1) as nat;
        lemma_repairs(agents, facts, m);
        assert(part.drop_last() =~= agents.take(m as int));
        assert(Seq::new(n, |i: int| i).drop_last() =~= Seq::new(m, |i: int| i));
        assert(Seq::new(n, |i: int| i).last() == m);
        assert(positions(m, p).push(m as int).map_values(seed) =~= positions(m, p).map_values(
            seed,
        ).push(seed(m as int)));
        assert(positions(m, q).push(m as int).map_values(slot) =~= positions(m, q).map_values(
            slot,
        ).push(slot(m as int)));
    }
    assert(seed_fixes(part, facts) =~= positions(n, p).map_values(seed));
    assert(repaired_slots(part, facts) =~= positions(n, q).map_values(slot));
}

/// An agent has the model that its conversation confirmed, white space around it
/// aside; where none was confirmed it keeps its own. Nothing else of it changes.
pub proof fn law_agent_runs_what_was_confirmed(before: TeamAgent, f: ModelFacts, after: TeamAgent)
    requires
        repaired_agent(before, f, after),
    ensures
        f.confirmed_model_id is Some && !is_blank(f.confirmed_model_id->0@) ==> after.model@
            == trimmed(f.confirmed_model_id->0@),
        f.confirmed_model_id is None || is_blank(f.confirmed_model_id->0@) ==> after.model@
            == before.model@,
        after.slot_id == before.slot_id,
        after.name == before.name,
        after.role == before.role,
        after.conversation_id == before.conversation_id,
        after.backend == before.backend,
        after.assistant_id == before.assistant_id,
        after.status == before.status,
        after.conversation_type == before.conversation_type,
        after.cli_path == before.cli_path,
        roster_differs(before, f) <==> after.model@ != before.model@,
{
}

/// A repair says for which id and with which model, one for one.
pub proof fn law_repairs_are_shown(v: Seq<ModelFix>, i: int)
    requires
        0 <= i < v.len(),
    ensures
        fixes(v).len() == v.len(),
        fixes(v)[i].0 == v[i].id@,
        fixes(v)[i].1 == v[i].model@,
{
}

} // verus!
