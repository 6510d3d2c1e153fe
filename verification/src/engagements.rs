//! The engagements of a team: who may see and change them, and what belongs to
//! them.
use crate::error::TeamError;
use crate::scheduler::TaskProcess;
use crate::search::{first_index, lemma_first_index, lemma_is_first, lemma_no_first};
use crate::sessions::TeamSessionService;
use crate::teams::{load_owned_team, owned, Team};
use crate::text::{opt_str, same_text};
use vstd::prelude::*;

verus! {

/// An engagement as it is stored.
#[derive(Debug)]
pub struct EngagementRow {
    pub id: String,
    pub team_id: String,
    pub project_id: String,
    pub workspace: String,
    pub process: String,
    pub status: String,
}

impl Clone for EngagementRow {
    fn clone(&self) -> (r: Self)
        ensures
            r == *self,
    {
        EngagementRow {
            id: self.id.clone(),
            team_id: self.team_id.clone(),
            project_id: self.project_id.clone(),
            workspace: self.workspace.clone(),
            process: self.process.clone(),
            status: self.status.clone(),
        }
    }
}

/// The engagement with that id belongs to the team.
pub open spec fn is_engagement(id: Seq<char>, team: Seq<char>) -> spec_fn(EngagementRow) -> bool {
    |e: EngagementRow| e.id@ == id && e.team_id@ == team
}

/// Where the engagement of an owned team stands among the rows of its user. A
/// team of another user, an engagement of another team and an engagement that
/// does not exist are answered alike.
pub fn load_owned_engagement(
    team: Option<&Team>,
    rows: &[EngagementRow],
    user_id: &str,
    team_id: &str,
    engagement_id: &str,
) -> (r: Result<usize, TeamError>)
    ensures
        ({
            let at = first_index(rows@, is_engagement(engagement_id@, team_id@));
            match r {
                Ok(i) => owned(team, user_id@, team_id@) && at == Some(i as int) && i
                    < rows@.len(),
                Err(e) => (!owned(team, user_id@, team_id@) || at is None) && (
                e matches TeamError::TeamNotFound(x) && x@ == team_id@),
            }
        }),
{
    if let Err(e) = load_owned_team(team, user_id, team_id) {
        return Err(e);
    }
    let ghost p = is_engagement(engagement_id@, team_id@);
    let mut i: usize = 0;
    while i < rows.len()
        invariant
            i <= rows@.len(),
            owned(team, user_id@, team_id@),
            p == is_engagement(engagement_id@, team_id@),
            forall|j: int| 0 <= j < i ==> !p(#[trigger] rows@[j]),
        decreases rows@.len() - i,
    {
        if same_text(rows[i].id.as_str(), engagement_id) && same_text(
            rows[i].team_id.as_str(),
            team_id,
        ) {
            proof {
                lemma_is_first(rows@, p, i as int);
            }
            return Ok(i);
        }
        i = i + 1;
    }
    proof {
        lemma_no_first(rows@, p);
    }
    Err(TeamError::TeamNotFound(team_id.to_owned()))
}

/// The text names a process.
pub open spec fn is_process(s: Seq<char>) -> bool {
    s == TaskProcess::Sequential.text() || s == TaskProcess::Hierarchical.text()
}

/// The row with what the request names.
pub open spec fn engagement_changed(
    before: EngagementRow,
    after: EngagementRow,
    process: Option<Seq<char>>,
    status: Option<Seq<char>>,
) -> bool {
    &&& after == (EngagementRow { process: after.process, status: after.status, ..before })
    &&& after.process@ == match process {
        Some(p) => p,
        None => before.process@,
    }
    &&& after.status@ == match status {
        Some(s) => s,
        None => before.status@,
    }
}

/// What comes of a request to change an engagement.
pub open spec fn change_answered(
    is_owned: bool,
    rows: Seq<EngagementRow>,
    after: Seq<EngagementRow>,
    team: Seq<char>,
    id: Seq<char>,
    process: Option<Seq<char>>,
    status: Option<Seq<char>>,
    r: Result<EngagementRow, TeamError>,
) -> bool {
    let at = first_index(rows, is_engagement(id, team));
    if !is_owned || at is None {
        (r matches Err(TeamError::TeamNotFound(x)) && x@ == team) && after == rows
    } else if process is Some && !is_process(process->0) {
        (r matches Err(TeamError::InvalidRequest(x)) && x@ == "invalid process: "@ + process->0)
            && after == rows
    } else {
        r matches Ok(row) && engagement_changed(rows[at->0], row, process, status) && after
            == rows.update(at->0, row)
    }
}

impl TeamSessionService {
    /// Changes how an engagement works through its tasks, and its status. A
    /// refused request changes nothing.
    pub fn update_team_engagement(
        team: Option<&Team>,
        rows: &mut Vec<EngagementRow>,
        user_id: &str,
        team_id: &str,
        engagement_id: &str,
        process: Option<&str>,
        status: Option<&str>,
    ) -> (r: Result<EngagementRow, TeamError>)
        ensures
            ({
                let at = first_index(old(rows)@, is_engagement(engagement_id@, team_id@));
                if !owned(team, user_id@, team_id@) || at is None {
                    (r matches Err(TeamError::TeamNotFound(x)) && x@ == team_id@) && final(rows)@
                        == old(rows)@
                } else if process is Some && !is_process(process->0@) {
                    (r matches Err(TeamError::InvalidRequest(x)) && x@ == "invalid process: "@
                        + process->0@) && final(rows)@ == old(rows)@
                } else {
                    &&& r matches Ok(row) && engagement_changed(
                        old(rows)@[at->0],
                        row,
                        opt_str(process),
                        opt_str(status),
                    ) && final(rows)@ == old(rows)@.update(at->0, row)
                }
            }),
            change_answered(
                owned(team, user_id@, team_id@),
                old(rows)@,
                final(rows)@,
                team_id@,
                engagement_id@,
                opt_str(process),
                opt_str(status),
                r,
            ),
    {
        let i = match load_owned_engagement(team, rows.as_slice(), user_id, team_id, engagement_id) {
            Ok(i) => i,
            Err(e) => return Err(e),
        };
        let mut row = rows[i].clone();
        if let Some(p) = process {
            if TaskProcess::parse(p).is_none() {
                proof {
                    assert(p@ != TaskProcess::Sequential.text());
                    assert(p@ != TaskProcess::Hierarchical.text());
                }
                let mut text = "invalid process: ".to_owned();
                text.append(p);
                return Err(TeamError::InvalidRequest(text));
            }
            row.process = p.to_owned();
        }
        if let Some(s) = status {
            row.status = s.to_owned();
        }
        let copy = row.clone();
        rows[i] = row;
        Ok(copy)
    }
}

/// The engagements of a team, archived ones too.
pub open spec fn of_team(team: Seq<char>) -> spec_fn(EngagementRow) -> bool {
    |e: EngagementRow| e.team_id@ == team
}

impl TeamSessionService {
    /// The engagements of an owned team, whatever their status.
    pub fn list_engagements_for_team(
        team: Option<&Team>,
        rows: &[EngagementRow],
        user_id: &str,
        team_id: &str,
    ) -> (r: Result<Vec<EngagementRow>, TeamError>)
        ensures
            match r {
                Ok(list) => owned(team, user_id@, team_id@) && list@ == rows@.filter(of_team(team_id@)),
                Err(e) => !owned(team, user_id@, team_id@) && (e matches TeamError::TeamNotFound(x)
                    && x@ == team_id@),
            },
    {
        if let Err(e) = load_owned_team(team, user_id, team_id) {
            return Err(e);
        }
        let ghost keep = of_team(team_id@);
        let mut r: Vec<EngagementRow> = Vec::new();
        let mut i: usize = 0;
        proof {
            reveal(Seq::filter);
            assert(rows@.take(0).filter(keep) =~= Seq::<EngagementRow>::empty());
        }
        while i < rows.len()
            invariant
                i <= rows@.len(),
                keep == of_team(team_id@),
                r@ == rows@.take(i as int).filter(keep),
            decreases rows@.len() - i,
        {
            proof {
                reveal(Seq::filter);
                assert(rows@.take(i + 1).drop_last() =~= rows@.take(i as int));
            }
            if same_text(rows[i].team_id.as_str(), team_id) {
                r.push(rows[i].clone());
            }
            i = i + 1;
        }
        assert(rows@.take(i as int) =~= rows@);
        Ok(r)
    }
}

/// Changing an engagement sets the process and the status that the request names and
/// keeps the rest; it is refused without any change where the user does not own the
/// team, the team has no such engagement, or the process is neither of the two.
pub proof fn law_engagement_keeps_what_is_not_named(
    before: EngagementRow,
    after: EngagementRow,
    process: Option<Seq<char>>,
    status: Option<Seq<char>>,
)
    requires
        engagement_changed(before, after, process, status),
    ensures
        process is Some ==> after.process@ == process->0,
        process is None ==> after.process@ == before.process@,
        status is Some ==> after.status@ == status->0,
        status is None ==> after.status@ == before.status@,
        after.id == before.id,
        after.team_id == before.team_id,
        after.project_id == before.project_id,
        after.workspace == before.workspace,
{
}

/// An engagement works through its tasks one by one or all at once; no other word
/// names a process.
pub proof fn law_two_words_name_a_process(word: Seq<char>)
    ensures
        is_process(word) <==> word == "sequential"@ || word == "hierarchical"@,
        TaskProcess::Sequential.text() == "sequential"@,
        TaskProcess::Hierarchical.text() == "hierarchical"@,
{
}

/// A request finds the first engagement with that id of that team, and none of any
/// other team.
pub proof fn law_engagement_of_another_team_is_not_found(
    rows: Seq<EngagementRow>,
    id: Seq<char>,
    team: Seq<char>,
)
    ensures
        match first_index(rows, is_engagement(id, team)) {
            Some(i) => 0 <= i < rows.len() && rows[i].id@ == id && rows[i].team_id@ == team,
            None => forall|j: int|
                0 <= j < rows.len() ==> (#[trigger] rows[j]).id@ != id || rows[j].team_id@ != team,
        },
{
    let p = is_engagement(id, team);
    lemma_first_index(rows, p);
    if first_index(rows, p) is None {
        assert forall|j: int| 0 <= j < rows.len() implies (#[trigger] rows[j]).id@ != id
            || rows[j].team_id@ != team by {
            assert(!p(rows[j]));
        }
    }
}

/// The list of a team's engagements holds all of them, whatever their status, and none
/// of another team.
pub proof fn law_list_holds_all_engagements(rows: Seq<EngagementRow>, team: Seq<char>)
    ensures
        rows.filter(of_team(team)) == rows.filter(|e: EngagementRow| e.team_id@ == team),
        forall|i: int|
            0 <= i < rows.len() ==> (rows.filter(of_team(team)).contains(#[trigger] rows[i])
                <==> rows[i].team_id@ == team),
{
    let p = of_team(team);
    let q = |e: EngagementRow| e.team_id@ == team;
    crate::search::lemma_filter_same(rows, p, q);
    assert forall|i: int| 0 <= i < rows.len() implies (rows.filter(p).contains(#[trigger] rows[i])
        <==> rows[i].team_id@ == team) by {
        assert(rows.contains(rows[i]));
        crate::task_board::lemma_filter_contains(rows, p, rows[i]);
    }
}

/// A change is made exactly where the team is the user's, the team has the engagement
/// and the process is one of the two, or none was named. It then goes to that one
/// engagement, and is what is answered; a refused one changes nothing.
pub proof fn law_engagement_change_is_all_or_nothing(
    is_owned: bool,
    rows: Seq<EngagementRow>,
    after: Seq<EngagementRow>,
    team: Seq<char>,
    id: Seq<char>,
    process: Option<Seq<char>>,
    status: Option<Seq<char>>,
    r: Result<EngagementRow, TeamError>,
)
    requires
        change_answered(is_owned, rows, after, team, id, process, status, r),
    ensures
        r is Ok <==> {
            &&& is_owned
            &&& exists|i: int|
                0 <= i < rows.len() && (#[trigger] rows[i]).id@ == id && rows[i].team_id@ == team
            &&& process is Some ==> process->0 == "sequential"@ || process->0 == "hierarchical"@
        },
        r is Err ==> after == rows,
        r matches Err(e) ==> e is TeamNotFound || e is InvalidRequest,
        r matches Err(TeamError::TeamNotFound(x)) ==> x@ == team,
        !is_owned ==> (r matches Err(TeamError::TeamNotFound(_))),
        r matches Err(TeamError::InvalidRequest(x)) ==> process is Some && x@
            == "invalid process: "@ + process->0,
        r matches Ok(row) ==> {
            &&& row.id@ == id
            &&& row.team_id@ == team
            &&& process is Some ==> row.process@ == process->0
            &&& status is Some ==> row.status@ == status->0
            &&& after.len() == rows.len()
            &&& exists|i: int|
                {
                    &&& 0 <= i < rows.len()
                    &&& #[trigger] after[i] == row
                    &&& rows[i].id@ == id
                    &&& row.project_id == rows[i].project_id
                    &&& row.workspace == rows[i].workspace
                    &&& process is None ==> row.process@ == rows[i].process@
                    &&& status is None ==> row.status@ == rows[i].status@
                    &&& forall|j: int| 0 <= j < rows.len() && j != i ==> after[j] == rows[j]
                }
        },
{
    law_engagement_of_another_team_is_not_found(rows, id, team);
    law_two_words_name_a_process(
        match process {
            Some(p) => p,
            None => Seq::empty(),
        },
    );
    if let Ok(row) = r {
        let i = first_index(rows, is_engagement(id, team))->0;
        assert(after[i] == row);
    }
}

} // verus!
