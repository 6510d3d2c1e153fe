//! Handing a task to another team: the root task on the board of the
//! engagement, and the message to its lead.
use crate::board_spec::{id_taken, new_row, ChangeView, Scope};
use crate::error::TeamError;
use crate::json::Member;
use crate::result_delivery::{
    delegated_result_metadata, engagement_of, law_metadata_reads_back,
    law_ordinary_task_has_no_reply, law_root_metadata_has_its_keys, metadata_members, reply_to_of,
    root_metadata, stored_depth,
};
use crate::roster::EngagementMember;
use crate::scheduler::{MailboxMessageType, MailboxWrite};
use crate::search::{first, first_index, lemma_first_index, lemma_is_first, lemma_no_first};
use crate::sessions::TeamSessionService;
use crate::task::{readable, task_of, RowView};
use crate::task_board::{TaskBoard, TaskStore};
use crate::teams::{correlation, load_owned_team, owned, stamp_envelope_correlation, stamped, Team};
use crate::text::{
    first_occurs_at, is_blank, occurs_at, opt_str, opt_text, same_text, texts, trimmed,
};
use vstd::prelude::*;

verus! {

/// A member that leads its engagement.
pub open spec fn leads_engagement() -> spec_fn(EngagementMember) -> bool {
    |m: EngagementMember| m.role@ == "lead"@
}

fn find_lead_member(members: &[EngagementMember]) -> (r: Option<EngagementMember>)
    ensures
        r == first(members@, leads_engagement()),
{
    let ghost p = leads_engagement();
    let mut i: usize = 0;
    while i < members.len()
        invariant
            i <= members@.len(),
            p == leads_engagement(),
            forall|j: int| 0 <= j < i ==> !p(#[trigger] members@[j]),
        decreases members@.len() - i,
    {
        if same_text(members[i].role.as_str(), "lead") {
            proof {
                lemma_is_first(members@, p, i as int);
            }
            return Some(members[i].clone());
        }
        i = i + 1;
    }
    proof {
        lemma_no_first(members@, p);
    }
    None
}

/// A delegated task that was accepted: where it stands, and the message that
/// goes to the lead.
#[derive(Debug)]
pub struct Convened {
    pub engagement_id: String,
    pub root_task_id: String,
    pub lead_slot_id: String,
    pub message: MailboxWrite,
}

/// What a request for a delegated task says.
#[derive(Debug)]
pub struct DelegatedTask<'a> {
    pub subject: &'a str,
    pub description: &'a str,
    pub expected_output: Option<&'a str>,
    pub envelope_payload: &'a str,
    pub reply_to: Option<&'a str>,
    pub depth: u32,
}

/// The root task is on the board, with the metadata that leads its result back
/// exactly where somebody waits for it.
pub open spec fn root_task_added(
    s: Scope,
    rows: Seq<RowView>,
    after: Seq<RowView>,
    id: Seq<char>,
    now: int,
    lead: Seq<char>,
    task: DelegatedTask,
) -> bool {
    let row = after.last();
    &&& after == rows.push(row)
    &&& row == new_row(
        s,
        id,
        now,
        task.subject@,
        Some(task.description@),
        Some(lead),
        Seq::empty(),
        opt_str(task.expected_output),
        row.metadata,
    )
    &&& readable(row)
    &&& metadata_members(task_of(row).metadata) == match task.reply_to {
        Some(reply_to) => Some(root_metadata(reply_to@, s.engagement->0, task.depth)),
        None => None,
    }
}

/// The message that goes to the lead.
pub open spec fn lead_message(
    w: MailboxWrite,
    team: Seq<char>,
    engagement: Seq<char>,
    id: Seq<char>,
    lead: Seq<char>,
    task: DelegatedTask,
) -> bool {
    &&& w.team_id@ == team
    &&& w.to_agent_id@ == lead
    &&& w.from_agent_id@ == "user"@
    &&& w.kind == MailboxMessageType::Message
    &&& stamped(task.envelope_payload@, correlation(engagement, id), w.content@)
    &&& opt_text(w.summary) == Some(task.subject@)
    &&& opt_text(w.engagement_id) == Some(engagement)
}

/// What comes of a delegation: it is refused without any change where the team is not
/// the user's, nobody leads the engagement or the id is taken; otherwise the root task
/// is stored and announced, and the lead hears of it.
pub open spec fn convened(
    is_owned: bool,
    team: Seq<char>,
    engagement: Seq<char>,
    members: Seq<EngagementMember>,
    rows: Seq<RowView>,
    said: Seq<ChangeView>,
    after: Seq<RowView>,
    told: Seq<ChangeView>,
    id: Seq<char>,
    now: int,
    task: DelegatedTask,
    r: Result<Convened, TeamError>,
) -> bool {
    let s = Scope { engagement: Some(engagement), team };
    let lead = first(members, leads_engagement());
    if !is_owned {
        (r matches Err(TeamError::TeamNotFound(x)) && x@ == team) && after == rows && told == said
    } else if lead is None {
        (r matches Err(TeamError::InvalidRequest(x)) && x@ == "engagement "@ + engagement
            + " has no lead member"@) && after == rows && told == said
    } else if id_taken(rows, id) {
        (r matches Err(TeamError::TaskIdTaken(x)) && x@ == id) && after == rows && told == said
    } else {
        let slot = (lead->0).slot_id@;
        &&& root_task_added(s, rows, after, id, now, slot, task)
        &&& told == said.push(ChangeView { task: task_of(after.last()), created: true })
        &&& r matches Ok(c) && c.engagement_id@ == engagement && c.root_task_id@ == id
            && c.lead_slot_id@ == slot && lead_message(
            c.message,
            team,
            engagement,
            id,
            slot,
            task,
        )
    }
}

impl TeamSessionService {
    /// Puts a delegated task on the board of an engagement, owned by its lead, and
    /// writes the message to the lead.
    pub fn convene_delegated_task(
        team: Option<&Team>,
        user_id: &str,
        team_id: &str,
        engagement_id: &str,
        members: &[EngagementMember],
        store: &mut TaskStore,
        task_id: &str,
        now: i64,
        task: &DelegatedTask,
    ) -> (r: Result<Convened, TeamError>)
        ensures
            ({
                let s = Scope { engagement: Some(engagement_id@), team: team_id@ };
                let rows = old(store).tasks();
                let after = final(store).tasks();
                let lead = first(members@, leads_engagement());
                if !owned(team, user_id@, team_id@) {
                    (r matches Err(TeamError::TeamNotFound(x)) && x@ == team_id@) && *final(store)
                        == *old(store)
                } else if lead is None {
                    (r matches Err(TeamError::InvalidRequest(x)) && x@ == "engagement "@
                        + engagement_id@ + " has no lead member"@) && *final(store) == *old(store)
                } else if id_taken(rows, task_id@) {
                    (r matches Err(TeamError::TaskIdTaken(x)) && x@ == task_id@) && after == rows
                        && final(store).announced() == old(store).announced()
                } else {
                    let slot = (lead->0).slot_id@;
                    &&& root_task_added(s, rows, after, task_id@, now as int, slot, *task)
                    &&& final(store).announced() == old(store).announced().push(
                        ChangeView { task: task_of(after.last()), created: true },
                    )
                    &&& r matches Ok(c) && c.engagement_id@ == engagement_id@ && c.root_task_id@
                        == task_id@ && c.lead_slot_id@ == slot && lead_message(
                        c.message,
                        team_id@,
                        engagement_id@,
                        task_id@,
                        slot,
                        *task,
                    )
                }
            }),
            convened(
                owned(team, user_id@, team_id@),
                team_id@,
                engagement_id@,
                members@,
                old(store).tasks(),
                old(store).announced(),
                final(store).tasks(),
                final(store).announced(),
                task_id@,
                now as int,
                *task,
                r,
            ),
    {
        if let Err(e) = load_owned_team(team, user_id, team_id) {
            return Err(e);
        }
        let lead = match find_lead_member(members) {
            Some(m) => m,
            None => {
                let mut text = "engagement ".to_owned();
                text.append(engagement_id);
                text.append(" has no lead member");
                return Err(TeamError::InvalidRequest(text));
            },
        };
        let metadata = match task.reply_to {
            Some(reply_to) => Some(delegated_result_metadata(reply_to, engagement_id, task.depth)),
            None => None,
        };
        let board = TaskBoard::new_for_user(user_id).with_events().with_engagement(
            engagement_id,
        ).with_task_metadata(metadata);
        let no_deps: Vec<String> = Vec::new();
        let ghost rows = store.tasks();
        let ghost s = Scope { engagement: Some(engagement_id@), team: team_id@ };
        proof {
            assert(texts(no_deps@) =~= Seq::<Seq<char>>::empty());
            assert(board.scope(team_id@) == s);
        }
        match board.create_task(
            store,
            task_id,
            now,
            team_id,
            task.subject,
            Some(task.description),
            Some(lead.slot_id.as_str()),
            no_deps.as_slice(),
            task.expected_output,
        ) {
            Ok(_) => {},
            Err(e) => return Err(e),
        }
        assert(store.tasks().drop_last() =~= rows);
        let content = stamp_envelope_correlation(task.envelope_payload, engagement_id, task_id);
        Ok(
            Convened {
                engagement_id: engagement_id.to_owned(),
                root_task_id: task_id.to_owned(),
                lead_slot_id: lead.slot_id.clone(),
                message: MailboxWrite {
                    team_id: team_id.to_owned(),
                    to_agent_id: lead.slot_id,
                    from_agent_id: "user".to_owned(),
                    kind: MailboxMessageType::Message,
                    content,
                    summary: Some(task.subject.to_owned()),
                    engagement_id: Some(engagement_id.to_owned()),
                },
            },
        )
    }
}

/// The result of a delegated task finds its way back: the root task on the
/// board names the conversation that waits for it, and its engagement; where
/// none waits, it names none.
pub proof fn law_delegated_result_finds_its_way(
    s: Scope,
    rows: Seq<RowView>,
    after: Seq<RowView>,
    id: Seq<char>,
    now: int,
    lead: Seq<char>,
    task: DelegatedTask,
    fallback: Seq<char>,
)
    requires
        root_task_added(s, rows, after, id, now, lead, task),
        s.engagement is Some,
    ensures
        ({
            let metadata = metadata_members(task_of(after.last()).metadata);
            match task.reply_to {
                Some(reply_to) => {
                    &&& reply_to_of(metadata) == if is_blank(reply_to@) {
                        None
                    } else {
                        Some(trimmed(reply_to@))
                    }
                    &&& !is_blank(s.engagement->0) ==> engagement_of(metadata, fallback)
                        == s.engagement->0
                    &&& stored_depth(metadata) == task.depth
                },
                None => reply_to_of(metadata) is None && stored_depth(metadata) == 0,
            }
        }),
{
    if let Some(reply_to) = task.reply_to {
        law_metadata_reads_back(reply_to@, s.engagement->0, task.depth, fallback);
    } else {
        law_ordinary_task_has_no_reply(None);
    }
}

/// The root task of a delegation is stored as it was asked for: pending, owned by the
/// lead, on the board of the engagement, with the subject, the description and the
/// expected output of the request, waiting on nothing; every other task stays.
pub proof fn law_root_task_is_as_delegated(
    s: Scope,
    rows: Seq<RowView>,
    after: Seq<RowView>,
    id: Seq<char>,
    now: int,
    lead: Seq<char>,
    task: DelegatedTask,
)
    requires
        root_task_added(s, rows, after, id, now, lead, task),
    ensures
        after.len() == rows.len() + 1,
        forall|i: int| 0 <= i < rows.len() ==> #[trigger] after[i] == rows[i],
        ({
            let row = after.last();
            let told = task_of(row);
            &&& row.id == id
            &&& row.team_id == s.team
            &&& row.engagement_id == s.engagement
            &&& row.subject == task.subject@
            &&& row.description == Some(task.description@)
            &&& row.owner == Some(lead)
            &&& row.status == "pending"@
            &&& task.expected_output is Some ==> row.expected_output == Some(
                task.expected_output->0@,
            )
            &&& task.expected_output is None ==> row.expected_output is None
            &&& row.created_at == now
            &&& row.updated_at == now
            &&& row.result is None
            &&& row.input_context is None
            &&& task.reply_to is None ==> told.metadata is None
            &&& task.reply_to is Some ==> told.metadata is Some && {
                let m = told.metadata->0.members;
                &&& m.dom().contains("delegate_reply_to"@) && m["delegate_reply_to"@]
                    == Member::Text(task.reply_to->0@)
                &&& m.dom().contains("engagement_id"@) && m["engagement_id"@] == Member::Text(
                    s.engagement->0,
                )
                &&& m.dom().contains("delegate_depth"@) && m["delegate_depth"@] == Member::Count(
                    task.depth as u64,
                )
            }
        }),
{
    crate::task::law_statuses_have_their_names(Seq::empty());
    if let Some(reply_to) = task.reply_to {
        law_root_metadata_has_its_keys(reply_to@, s.engagement->0, task.depth);
    }
}

/// The message of a delegation comes from the user, goes to the lead, bears the
/// subject, belongs to the engagement, and is the payload of the request: with lines
/// that name the engagement and the task in front of the first end of its envelope, or
/// as it was where it has none.
pub proof fn law_lead_hears_of_the_delegation(
    w: MailboxWrite,
    team: Seq<char>,
    engagement: Seq<char>,
    id: Seq<char>,
    lead: Seq<char>,
    task: DelegatedTask,
    at: int,
)
    requires
        lead_message(w, team, engagement, id, lead, task),
    ensures
        w.team_id@ == team,
        w.to_agent_id@ == lead,
        w.from_agent_id@ == "user"@,
        w.kind == MailboxMessageType::Message,
        w.summary is Some && w.summary->0@ == task.subject@,
        w.engagement_id is Some && w.engagement_id->0@ == engagement,
        first_occurs_at(task.envelope_payload@, "[[/AION_DELEGATE]]"@, at) ==> w.content@
            == task.envelope_payload@.take(at) + ("engagement_id: "@ + engagement
            + "\nroot_task_id: "@ + id + "\n"@) + task.envelope_payload@.skip(at),
        (forall|k: int| !#[trigger] occurs_at(task.envelope_payload@, "[[/AION_DELEGATE]]"@, k))
            ==> w.content@ == task.envelope_payload@,
{
}

/// The lead of an engagement is the first of its members whose role is that of a lead.
pub proof fn law_first_lead_leads_the_engagement(members: Seq<EngagementMember>)
    ensures
        match first(members, leads_engagement()) {
            Some(m) => exists|i: int|
                {
                    &&& 0 <= i < members.len()
                    &&& #[trigger] members[i] == m
                    &&& m.role@ == "lead"@
                    &&& forall|j: int| 0 <= j < i ==> (#[trigger] members[j]).role@ != "lead"@
                },
            None => forall|j: int|
                0 <= j < members.len() ==> (#[trigger] members[j]).role@ != "lead"@,
        },
{
    let p = leads_engagement();
    lemma_first_index(members, p);
    match first_index(members, p) {
        Some(i) => {
            assert(members[i].role@ == "lead"@);
            assert forall|j: int| 0 <= j < i implies (#[trigger] members[j]).role@ != "lead"@ by {
                assert(!p(members[j]));
            }
        },
        None => {
            assert forall|j: int| 0 <= j < members.len() implies (#[trigger] members[j]).role@
                != "lead"@ by {
                assert(!p(members[j]));
            }
        },
    }
}

/// A delegation succeeds exactly where the team is the user's, somebody leads the
/// engagement and no task has the id yet. It then names the engagement, the task and the
/// first lead, and announces the one task as new; a refused one stores and announces
/// nothing.
pub proof fn law_delegation_is_all_or_nothing(
    is_owned: bool,
    team: Seq<char>,
    engagement: Seq<char>,
    members: Seq<EngagementMember>,
    rows: Seq<RowView>,
    said: Seq<ChangeView>,
    after: Seq<RowView>,
    told: Seq<ChangeView>,
    id: Seq<char>,
    now: int,
    task: DelegatedTask,
    r: Result<Convened, TeamError>,
    k: int,
)
    requires
        convened(
            is_owned,
            team,
            engagement,
            members,
            rows,
            said,
            after,
            told,
            id,
            now,
            task,
            r,
        ),
    ensures
        r is Ok <==> is_owned && (exists|i: int|
            0 <= i < members.len() && (#[trigger] members[i]).role@ == "lead"@) && forall|i: int|
            0 <= i < rows.len() ==> (#[trigger] rows[i]).id != id,
        r is Err ==> after == rows && told == said,
        !is_owned ==> (r matches Err(TeamError::TeamNotFound(x)) && x@ == team),
        is_owned && (forall|i: int|
            0 <= i < members.len() ==> (#[trigger] members[i]).role@ != "lead"@) ==> (
        r matches Err(TeamError::InvalidRequest(x)) && x@ == "engagement "@ + engagement
            + " has no lead member"@),
        r matches Err(TeamError::TaskIdTaken(x)) ==> x@ == id,
        r matches Err(e) ==> e is TeamNotFound || e is InvalidRequest || e is TaskIdTaken,
        r matches Ok(c) ==> {
            &&& c.engagement_id@ == engagement
            &&& c.root_task_id@ == id
            &&& c.message.to_agent_id@ == c.lead_slot_id@
            &&& after.len() == rows.len() + 1
            &&& after.last().id == id
            &&& after.last().owner == Some(c.lead_slot_id@)
            &&& after.last().engagement_id == Some(engagement)
            &&& told.len() == said.len() + 1
            &&& told.drop_last() == said
            &&& told.last().created
            &&& told.last().task.id == id
        },
        r matches Ok(c) ==> 0 <= k < members.len() && members[k].role@ == "lead"@ && (forall|
            j: int,
        |
            0 <= j < k ==> (#[trigger] members[j]).role@ != "lead"@) ==> c.lead_slot_id@
            == members[k].slot_id@,
{
    law_first_lead_leads_the_engagement(members);
    if let Ok(c) = r {
        assert(told.drop_last() =~= said);
        let p = leads_engagement();
        if 0 <= k < members.len() && members[k].role@ == "lead"@ && (forall|j: int|
            0 <= j < k ==> (#[trigger] members[j]).role@ != "lead"@) {
            assert forall|j: int| 0 <= j < k implies !p(#[trigger] members[j]) by {
                assert(members[j].role@ != "lead"@);
            }
            lemma_is_first(members, p, k);
        }
    }
}

} // verus!
