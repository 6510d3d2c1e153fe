//! The task board: tasks, what they wait on, and what they hand to each other.
use crate::board_laws::{
    law_create_stays_in_scope, law_unblocking_only_releases, law_update_stays_in_scope,
    law_updated_task_is_found, lemma_create_no_cycles, lemma_fewer_no_cycles,
    lemma_first_missing_none, lemma_found, lemma_found_after_push, lemma_found_same_places,
    lemma_linked_kept, lemma_materialized_graph, lemma_rewrite_no_cycles, lemma_unblocked_kept,
    lemma_unblocked_one_kept,
};
use crate::board_spec::{
    blocking, changed, edges_of, feeding, feeds, first_missing, found, graph_of, id_taken, linked,
    listed, listed_tasks, materialized, new_context, new_row, no_cycles, older, outside_kept, ready,
    released, unblock_events, unblocked, unblocked_one, unique_ids, updated, visible, ChangeView,
    Scope, UpdateView,
};
use crate::error::TeamError;
use crate::graph::{
    edge_views, find_cyclic, first_cyclic, lemma_first_cyclic_none, reaches, reaches_in, TaskEdges,
};
use crate::input_context::{build_input_context, row_refs};
use crate::json::{
    flat, ids_json, json_ids, json_value, json_view, parse_ids, value_json, write_ids, write_value,
};
use crate::order::{lemma_filter_all, stable_sort, Order};
use crate::task::{
    law_stored_status_reads_back, readable, row_views, task_of, task_views, RowView, TaskStatus,
    TeamTask, TeamTaskRow,
};
use crate::text::{
    blank, copy_opt, is_blank, opt_str, opt_text, own_opt, same_text, text_listed, texts,
};
use vstd::prelude::*;

verus! {

/// Whether a task is new or was changed. A deletion is a change of status.
#[derive(Debug, Clone, Copy, PartialEq, Eq, Structural)]
pub enum TeamTaskChange {
    Created,
    Updated,
}

/// The announcement of a changed task.
#[derive(Debug)]
pub struct TaskChanged {
    pub task: TeamTask,
    pub change: TeamTaskChange,
}

impl View for TaskChanged {
    type V = ChangeView;

    open spec fn view(&self) -> ChangeView {
        ChangeView { task: self.task@, created: self.change == TeamTaskChange::Created }
    }
}

pub open spec fn change_views(v: Seq<TaskChanged>) -> Seq<ChangeView> {
    v.map_values(|c: TaskChanged| c@)
}

/// The stored tasks of a user, and the announcements that are to go out.
#[derive(Debug)]
pub struct TaskStore {
    pub rows: Vec<TeamTaskRow>,
    pub events: Vec<TaskChanged>,
}

impl TaskStore {
    pub open spec fn tasks(self) -> Seq<RowView> {
        row_views(self.rows@)
    }

    pub open spec fn announced(self) -> Seq<ChangeView> {
        change_views(self.events@)
    }

    pub fn new(rows: Vec<TeamTaskRow>) -> (r: TaskStore)
        ensures
            r.rows == rows,
            r.events@.len() == 0,
    {
        TaskStore { rows, events: Vec::new() }
    }
}

/// The tasks of one user, as one engagement sees them.
#[derive(Debug)]
pub struct TaskBoard {
    user_id: String,
    engagement_id: Option<String>,
    announces: bool,
    task_metadata: Option<serde_json::Value>,
}

/// Optional fields for a task update.
#[derive(Debug)]
pub struct TaskUpdate {
    pub status: Option<TaskStatus>,
    pub description: Option<String>,
    pub owner: Option<String>,
    pub blocked_by: Option<Vec<String>>,
    pub metadata: Option<serde_json::Value>,
}

impl View for TaskUpdate {
    type V = UpdateView;

    open spec fn view(&self) -> UpdateView {
        UpdateView {
            status: self.status,
            description: opt_text(self.description),
            owner: opt_text(self.owner),
            blocked_by: match self.blocked_by {
                Some(ids) => Some(texts(ids@)),
                None => None,
            },
            metadata: opt_json(self.metadata),
        }
    }
}

/// The text of an optional JSON value.
pub open spec fn opt_json(v: Option<serde_json::Value>) -> Option<Seq<char>> {
    match v {
        Some(v) => Some(value_json(v)),
        None => None,
    }
}

impl Default for TaskUpdate {
    fn default() -> (r: TaskUpdate)
        ensures
            r.status is None,
            r.description is None,
            r.owner is None,
            r.blocked_by is None,
            r.metadata is None,
    {
        TaskUpdate { status: None, description: None, owner: None, blocked_by: None, metadata: None }
    }
}

impl TaskBoard {
    pub closed spec fn user(self) -> Seq<char> {
        self.user_id@
    }

    pub closed spec fn engagement(self) -> Option<Seq<char>> {
        opt_text(self.engagement_id)
    }

    /// Changes on this board are announced.
    pub closed spec fn announcing(self) -> bool {
        self.announces
    }

    /// What new tasks carry as their metadata.
    pub closed spec fn new_task_metadata(self) -> Option<serde_json::Value> {
        self.task_metadata
    }

    /// What the board works on when it is asked about a team.
    pub open spec fn scope(self, team: Seq<char>) -> Scope {
        Scope { engagement: self.engagement(), team }
    }

    pub fn new() -> (r: TaskBoard)
        ensures
            r.user() == "system_default_user"@,
            r.engagement() is None,
            !r.announcing(),
            r.new_task_metadata() is None,
    {
        TaskBoard::new_for_user("system_default_user")
    }

    pub fn new_for_user(user_id: &str) -> (r: TaskBoard)
        ensures
            r.user() == user_id@,
            r.engagement() is None,
            !r.announcing(),
            r.new_task_metadata() is None,
    {
        TaskBoard {
            user_id: user_id.to_owned(),
            engagement_id: None,
            announces: false,
            task_metadata: None,
        }
    }

    /// Announces what changes from here on.
    pub fn with_events(self) -> (r: TaskBoard)
        ensures
            r.announcing(),
            r.user() == self.user(),
            r.engagement() == self.engagement(),
            r.new_task_metadata() == self.new_task_metadata(),
    {
        let mut board = self;
        board.announces = true;
        board
    }

    /// Pins the board, and every task created through it, to an engagement.
    pub fn with_engagement(self, engagement_id: &str) -> (r: TaskBoard)
        ensures
            r.engagement() == Some(engagement_id@),
            r.user() == self.user(),
            r.announcing() == self.announcing(),
            r.new_task_metadata() == self.new_task_metadata(),
    {
        let mut board = self;
        board.engagement_id = Some(engagement_id.to_owned());
        board
    }

    /// Gives the tasks created through the board their metadata.
    pub fn with_task_metadata(self, metadata: Option<serde_json::Value>) -> (r: TaskBoard)
        ensures
            r.new_task_metadata() == metadata,
            r.user() == self.user(),
            r.engagement() == self.engagement(),
            r.announcing() == self.announcing(),
    {
        let mut board = self;
        board.task_metadata = metadata;
        board
    }

    /// The user whose tasks the board holds.
    pub fn user_id(&self) -> (r: &str)
        ensures
            r@ == self.user(),
    {
        self.user_id.as_str()
    }

    /// The engagement that the board is pinned to.
    pub fn engagement_id(&self) -> (r: Option<String>)
        ensures
            opt_text(r) == self.engagement(),
    {
        copy_opt(&self.engagement_id)
    }

    fn sees(&self, team_id: &str, row: &TeamTaskRow) -> (r: bool)
        ensures
            r == visible(self.scope(team_id@), row@),
    {
        match &self.engagement_id {
            Some(e) => match &row.engagement_id {
                Some(x) => same_text(x.as_str(), e.as_str()),
                None => false,
            },
            None => same_text(row.team_id.as_str(), team_id),
        }
    }

    /// Where the task stands among the rows.
    fn find_task(&self, rows: &Vec<TeamTaskRow>, team_id: &str, task_id: &str) -> (r: Option<usize>)
        ensures
            match r {
                Some(i) => found(self.scope(team_id@), row_views(rows@), task_id@) == Some(i as int)
                    && i < rows@.len() && rows@[i as int].id@ == task_id@ && visible(
                    self.scope(team_id@),
                    rows@[i as int]@,
                ),
                None => found(self.scope(team_id@), row_views(rows@), task_id@) is None,
            },
    {
        let ghost s = self.scope(team_id@);
        let ghost all = row_views(rows@);
        let mut i: usize = 0;
        while i < rows.len()
            invariant
                i <= rows@.len(),
                s == self.scope(team_id@),
                all == row_views(rows@),
                found(s, all.take(i as int), task_id@) is None,
            decreases rows@.len() - i,
        {
            proof {
                assert(all.take(i + 1).drop_last() =~= all.take(i as int));
                assert(all.take(i + 1).last() == rows@[i as int]@);
            }
            if self.sees(team_id, &rows[i]) && same_text(rows[i].id.as_str(), task_id) {
                proof {
                    lemma_found_in_prefix(s, all, task_id@, i + 1);
                }
                return Some(i);
            }
            i = i + 1;
        }
        assert(all.take(i as int) =~= all);
        None
    }
}

proof fn lemma_found_in_prefix(s: Scope, rows: Seq<RowView>, id: Seq<char>, n: int)
    requires
        0 <= n <= rows.len(),
        found(s, rows.take(n), id) is Some,
    ensures
        found(s, rows, id) == found(s, rows.take(n), id),
    decreases rows.len(),
{
    if n < rows.len() {
        assert(rows.drop_last().take(n) =~= rows.take(n));
        lemma_found_in_prefix(s, rows.drop_last(), id, n);
    } else {
        assert(rows.take(n) =~= rows);
    }
}

/// Replaces the list of what a row blocks.
fn set_blocks(rows: &mut Vec<TeamTaskRow>, i: usize, text: String)
    requires
        i < old(rows)@.len(),
    ensures
        row_views(final(rows)@) == row_views(old(rows)@).update(
            i as int,
            RowView { blocks: text@, ..old(rows)@[i as int]@ },
        ),
        final(rows)@.len() == old(rows)@.len(),
{
    rows[i].blocks = text;
    assert(row_views(rows@) =~= row_views(old(rows)@).update(
        i as int,
        RowView { blocks: text@, ..old(rows)@[i as int]@ },
    ));
}

/// Replaces the list of what a row waits on.
fn set_blocked_by(rows: &mut Vec<TeamTaskRow>, i: usize, text: String)
    requires
        i < old(rows)@.len(),
    ensures
        row_views(final(rows)@) == row_views(old(rows)@).update(
            i as int,
            RowView { blocked_by: text@, ..old(rows)@[i as int]@ },
        ),
        final(rows)@.len() == old(rows)@.len(),
{
    rows[i].blocked_by = text;
    assert(row_views(rows@) =~= row_views(old(rows)@).update(
        i as int,
        RowView { blocked_by: text@, ..old(rows)@[i as int]@ },
    ));
}

/// Adds `id` to what the row blocks.
fn append_to_blocks(rows: &mut Vec<TeamTaskRow>, i: usize, id: &str)
    requires
        i < old(rows)@.len(),
    ensures
        row_views(final(rows)@) == row_views(old(rows)@).update(
            i as int,
            blocking(old(rows)@[i as int]@, id@),
        ),
        final(rows)@.len() == old(rows)@.len(),
        json_ids(old(rows)@[i as int].blocks@) matches Some(ids) ==> json_ids(
            final(rows)@[i as int].blocks@,
        ) == Some(ids.push(id@)),
{
    match parse_ids(rows[i].blocks.as_str()) {
        Ok(parsed) => {
            let mut ids = parsed;
            ids.push(id.to_owned());
            assert(texts(ids@) =~= texts(parsed@).push(id@));
            if let Ok(text) = write_ids(ids.as_slice()) {
                set_blocks(rows, i, text);
                assert(row_views(rows@)[i as int] == rows@[i as int]@);
            }
        },
        Err(_) => {
            assert(row_views(rows@) =~= row_views(rows@).update(i as int, rows@[i as int]@));
        },
    }
}

/// The ids other than `id`.
fn without(ids: &Vec<String>, id: &str) -> (r: Vec<String>)
    ensures
        texts(r@) == texts(ids@).filter(|x: Seq<char>| x != id@),
{
    let ghost keep = |x: Seq<char>| x != id@;
    let ghost all = texts(ids@);
    let mut r: Vec<String> = Vec::new();
    let mut i: usize = 0;
    proof {
        reveal(Seq::filter);
        assert(all.take(0).filter(keep) =~= Seq::<Seq<char>>::empty());
        assert(texts(r@) =~= Seq::<Seq<char>>::empty());
    }
    while i < ids.len()
        invariant
            i <= ids@.len(),
            all == texts(ids@),
            keep == (|x: Seq<char>| x != id@),
            texts(r@) == all.take(i as int).filter(keep),
        decreases ids@.len() - i,
    {
        proof {
            reveal(Seq::filter);
            assert(all.take(i + 1).drop_last() =~= all.take(i as int));
            assert(all.take(i + 1).last() == ids@[i as int]@);
        }
        if !same_text(ids[i].as_str(), id) {
            let ghost before = texts(r@);
            r.push(ids[i].clone());
            assert(texts(r@) =~= before.push(ids@[i as int]@));
        }
        i = i + 1;
    }
    assert(all.take(i as int) =~= all);
    r
}

/// Takes `id` out of what the row waits on.
fn remove_from_blocked_by(rows: &mut Vec<TeamTaskRow>, i: usize, id: &str)
    requires
        i < old(rows)@.len(),
    ensures
        row_views(final(rows)@) == row_views(old(rows)@).update(
            i as int,
            released(old(rows)@[i as int]@, id@),
        ),
        final(rows)@.len() == old(rows)@.len(),
        listed(final(rows)@[i as int].blocked_by@) == listed(
            old(rows)@[i as int].blocked_by@,
        ).filter(|x: Seq<char>| x != id@),
        json_ids(old(rows)@[i as int].blocked_by@) matches Some(ids) ==> json_ids(
            final(rows)@[i as int].blocked_by@,
        ) == Some(ids.filter(|x: Seq<char>| x != id@)),
{
    match parse_ids(rows[i].blocked_by.as_str()) {
        Ok(parsed) => {
            let ids = without(&parsed, id);
            if let Ok(text) = write_ids(ids.as_slice()) {
                set_blocked_by(rows, i, text);
                assert(row_views(rows@)[i as int] == rows@[i as int]@);
            }
        },
        Err(_) => {
            assert(row_views(rows@) =~= row_views(rows@).update(i as int, rows@[i as int]@));
            proof {
                reveal(Seq::filter);
            }
        },
    }
}

/// From the oldest row to the newest.
pub struct OldestFirst {}

impl Order<TeamTaskRow> for OldestFirst {
    open spec fn before(&self, a: TeamTaskRow, b: TeamTaskRow) -> bool {
        a.created_at < b.created_at
    }

    fn is_before(&self, a: &TeamTaskRow, b: &TeamTaskRow) -> (r: bool) {
        a.created_at < b.created_at
    }
}

fn lists(text: &str, id: &str) -> (r: bool)
    ensures
        r == listed(text@).contains(id@),
{
    match parse_ids(text) {
        Ok(ids) => text_listed(ids.as_slice(), id),
        Err(_) => false,
    }
}

fn is_ready(row: &TeamTaskRow) -> (r: bool)
    ensures
        r == ready(row@),
{
    same_text(row.status.as_str(), TaskStatus::Pending.as_str()) && match parse_ids(
        row.blocked_by.as_str(),
    ) {
        Ok(ids) => ids.len() == 0,
        Err(_) => false,
    }
}

impl TaskBoard {
    fn feeds_task(&self, team_id: &str, row: &TeamTaskRow, task_id: &str) -> (r: bool)
        ensures
            r == feeds(self.scope(team_id@), row@, task_id@),
    {
        self.sees(team_id, row) && lists(row.blocks.as_str(), task_id) && same_text(
            row.status.as_str(),
            TaskStatus::Completed.as_str(),
        ) && match &row.result {
            Some(text) => !blank(text.as_str()),
            None => false,
        }
    }

    /// The completed rows that hand a result to the task, oldest first.
    fn feeding_rows(&self, rows: &Vec<TeamTaskRow>, team_id: &str, task_id: &str) -> (r: Vec<
        TeamTaskRow,
    >)
        ensures
            row_views(r@) == feeding(self.scope(team_id@), row_views(rows@), task_id@),
    {
        let ghost s = self.scope(team_id@);
        let ghost keep = |x: RowView| feeds(s, x, task_id@);
        let ghost all = row_views(rows@);
        let mut deps: Vec<TeamTaskRow> = Vec::new();
        let mut i: usize = 0;
        proof {
            reveal(Seq::filter);
            assert(all.take(0).filter(keep) =~= Seq::<RowView>::empty());
            assert(row_views(deps@) =~= Seq::<RowView>::empty());
        }
        while i < rows.len()
            invariant
                i <= rows@.len(),
                s == self.scope(team_id@),
                all == row_views(rows@),
                keep == (|x: RowView| feeds(s, x, task_id@)),
                row_views(deps@) == all.take(i as int).filter(keep),
            decreases rows@.len() - i,
        {
            proof {
                reveal(Seq::filter);
                assert(all.take(i + 1).drop_last() =~= all.take(i as int));
                assert(all.take(i + 1).last() == rows@[i as int]@);
            }
            if self.feeds_task(team_id, &rows[i], task_id) {
                let ghost before = row_views(deps@);
                deps.push(rows[i].clone());
                assert(row_views(deps@) =~= before.push(rows@[i as int]@));
            }
            i = i + 1;
        }
        proof {
            assert(all.take(i as int) =~= all);
            let order = OldestFirst {  };
            let f = |r: TeamTaskRow| r@;
            let b = |a: TeamTaskRow, b: TeamTaskRow| order.before(a, b);
            crate::order::lemma_sorted_map(b, older(), f, deps@);
        }
        stable_sort(&OldestFirst {  }, deps)
    }

    /// Gives the row at `i` its context, if there is one to give.
    fn materialize_at(&self, rows: &mut Vec<TeamTaskRow>, team_id: &str, i: usize) -> (r: Option<
        String,
    >)
        requires
            i < old(rows)@.len(),
        ensures
            opt_text(r) == new_context(self.scope(team_id@), row_views(old(rows)@), i as int),
            row_views(final(rows)@) == materialized(
                self.scope(team_id@),
                row_views(old(rows)@),
                i as int,
            ),
    {
        if !is_ready(&rows[i]) || rows[i].input_context.is_some() {
            return None;
        }
        let deps = self.feeding_rows(rows, team_id, rows[i].id.as_str());
        if deps.len() == 0 {
            return None;
        }
        let refs = row_references(&deps);
        let context = build_input_context(&rows[i], refs.as_slice());
        rows[i].input_context = Some(context.clone());
        assert(row_views(rows@) =~= materialized(
            self.scope(team_id@),
            row_views(old(rows)@),
            i as int,
        ));
        Some(context)
    }
}

fn row_references(rows: &Vec<TeamTaskRow>) -> (r: Vec<&TeamTaskRow>)
    ensures
        row_refs(r@) == row_views(rows@),
{
    let mut r: Vec<&TeamTaskRow> = Vec::new();
    let mut i: usize = 0;
    while i < rows.len()
        invariant
            i <= rows@.len(),
            r@.len() == i,
            forall|k: int| 0 <= k < i ==> *(#[trigger] r@[k]) == rows@[k],
        decreases rows@.len() - i,
    {
        r.push(&rows[i]);
        i = i + 1;
    }
    assert(row_refs(r@) =~= row_views(rows@));
    r
}

impl TaskBoard {
    /// Which task of the scope waits on which.
    fn edges(&self, rows: &Vec<TeamTaskRow>, team_id: &str) -> (r: Vec<TaskEdges>)
        ensures
            edge_views(r@) == graph_of(self.scope(team_id@), row_views(rows@)),
    {
        let ghost s = self.scope(team_id@);
        let mut r: Vec<TaskEdges> = Vec::new();
        let mut i: usize = 0;
        while i < rows.len()
            invariant
                i <= rows@.len(),
                r@.len() == i,
                s == self.scope(team_id@),
                forall|k: int| 0 <= k < i ==> (#[trigger] r@[k])@ == edges_of(s, rows@[k]@),
            decreases rows@.len() - i,
        {
            let deps = if self.sees(team_id, &rows[i]) {
                match parse_ids(rows[i].blocked_by.as_str()) {
                    Ok(ids) => ids,
                    Err(_) => Vec::new(),
                }
            } else {
                Vec::new()
            };
            proof {
                if deps@.len() == 0 {
                    assert(texts(deps@) =~= Seq::<Seq<char>>::empty());
                }
            }
            r.push(TaskEdges { id: rows[i].id.clone(), deps });
            i = i + 1;
        }
        assert(edge_views(r@) =~= graph_of(s, row_views(rows@)));
        r
    }

    /// The first of the ids that the board does not hold.
    fn missing(&self, rows: &Vec<TeamTaskRow>, team_id: &str, ids: &[String]) -> (r: Option<String>)
        ensures
            opt_text(r) == first_missing(self.scope(team_id@), row_views(rows@), texts(ids@)),
    {
        let ghost s = self.scope(team_id@);
        let ghost all = texts(ids@);
        let ghost views = row_views(rows@);
        let mut i: usize = 0;
        assert(all.skip(0) =~= all);
        while i < ids.len()
            invariant
                i <= ids@.len(),
                s == self.scope(team_id@),
                all == texts(ids@),
                views == row_views(rows@),
                first_missing(s, views, all) == first_missing(s, views, all.skip(i as int)),
            decreases ids@.len() - i,
        {
            assert(all.skip(i as int)[0] == ids@[i as int]@);
            if self.find_task(rows, team_id, ids[i].as_str()).is_none() {
                return Some(ids[i].clone());
            }
            assert(all.skip(i as int).drop_first() =~= all.skip(i + 1));
            i = i + 1;
        }
        None
    }

    fn announce(&self, store: &mut TaskStore, task: TeamTask, change: TeamTaskChange)
        ensures
            final(store).rows == old(store).rows,
            final(store).announced() == old(store).announced().push(
                ChangeView { task: task@, created: change == TeamTaskChange::Created },
            ),
    {
        store.events.push(TaskChanged { task, change });
        assert(store.announced() =~= old(store).announced().push(
            ChangeView { task: task@, created: change == TeamTaskChange::Created },
        ));
    }
}

fn is_taken(rows: &Vec<TeamTaskRow>, id: &str) -> (r: bool)
    ensures
        r == id_taken(row_views(rows@), id@),
{
    let mut i: usize = 0;
    while i < rows.len()
        invariant
            i <= rows@.len(),
            forall|k: int| 0 <= k < i ==> (#[trigger] row_views(rows@)[k]).id != id@,
        decreases rows@.len() - i,
    {
        if same_text(rows[i].id.as_str(), id) {
            assert(row_views(rows@)[i as int].id == id@);
            return true;
        }
        i = i + 1;
    }
    false
}

/// The text of an optional JSON value.
fn metadata_text(v: &Option<serde_json::Value>) -> (r: Result<Option<String>, serde_json::Error>)
    ensures
        r is Ok,
        opt_text(r->Ok_0) == opt_json(*v),
        *v matches Some(value) ==> flat(value) ==> json_value(opt_text(r->Ok_0)->0) == Some(
            json_view(value),
        ),
{
    match v {
        Some(v) => match write_value(v) {
            Ok(text) => Ok(Some(text)),
            Err(e) => Err(e),
        },
        None => Ok(None),
    }
}

/// What a request for a new task comes to.
pub open spec fn create_outcome(
    s: Scope,
    rows: Seq<RowView>,
    row: RowView,
    deps: Seq<Seq<char>>,
    r: Result<TeamTask, TeamError>,
) -> bool {
    if first_missing(s, rows, deps) is Some {
        r matches Err(TeamError::BlockedTaskNotFound(dep)) && Some(dep@) == first_missing(
            s,
            rows,
            deps,
        )
    } else if id_taken(rows, row.id) {
        r matches Err(TeamError::TaskIdTaken(id)) && id@ == row.id
    } else if first_cyclic(graph_of(s, rows), row.id, deps) is Some {
        r matches Err(TeamError::CyclicDependency { task_id, dependency }) && task_id@ == row.id
            && Some(dependency@) == first_cyclic(graph_of(s, rows), row.id, deps)
    } else if readable(row) {
        r matches Ok(task) && task@ == task_of(row)
    } else {
        r matches Err(TeamError::Json(_))
    }
}

/// The new task is stored.
pub open spec fn creates(s: Scope, rows: Seq<RowView>, id: Seq<char>, deps: Seq<Seq<char>>) -> bool {
    &&& first_missing(s, rows, deps) is None
    &&& !id_taken(rows, id)
    &&& first_cyclic(graph_of(s, rows), id, deps) is None
}

/// The list keeps all that it named, in its order, and `id` may follow.
pub open spec fn followed_by(before: Seq<Seq<char>>, after: Seq<Seq<char>>, id: Seq<char>) -> bool {
    &&& before.len() <= after.len()
    &&& forall|n: int| 0 <= n < before.len() ==> #[trigger] after[n] == before[n]
    &&& forall|n: int| before.len() <= n < after.len() ==> #[trigger] after[n] == id
}

/// What each row blocks that could be read can be read, and is the same or has
/// `id` behind it.
pub open spec fn blocks_grow(before: Seq<RowView>, after: Seq<RowView>, id: Seq<char>) -> bool {
    forall|j: int|
        0 <= j < before.len() && json_ids((#[trigger] before[j]).blocks) is Some ==> json_ids(
            after[j].blocks,
        ) is Some && followed_by(listed(before[j].blocks), listed(after[j].blocks), id)
}

/// Each of `deps` whose list can be read names `id` among what it blocks.
pub open spec fn named_by_deps(
    s: Scope,
    before: Seq<RowView>,
    after: Seq<RowView>,
    deps: Seq<Seq<char>>,
    id: Seq<char>,
) -> bool {
    forall|k: int|
        0 <= k < deps.len() ==> {
            let i = found(s, before, #[trigger] deps[k]);
            i is Some && (json_ids(before[i->0].blocks) is Some ==> listed(
                after[i->0].blocks,
            ).contains(id))
        }
}

/// All that a request for a new task does: what is stored and announced, that
/// the lists and the metadata of the new row read back as they were given, that
/// each dependency names the task, and what stays as it was.
pub open spec fn create_effect(
    s: Scope,
    announces: bool,
    metadata: Option<serde_json::Value>,
    rows: Seq<RowView>,
    said: Seq<ChangeView>,
    row: RowView,
    deps: Seq<Seq<char>>,
    after: Seq<RowView>,
    told: Seq<ChangeView>,
    r: Result<TeamTask, TeamError>,
) -> bool {
    &&& create_outcome(s, rows, row, deps, r)
    &&& after == if creates(s, rows, row.id, deps) {
        linked(s, rows.push(row), deps, row.id)
    } else {
        rows
    }
    &&& told == if r is Ok && announces {
        said.push(ChangeView { task: task_of(row), created: true })
    } else {
        said
    }
    &&& creates(s, rows, row.id, deps) ==> {
        &&& json_ids(row.blocked_by) == Some(deps)
        &&& json_ids(row.blocks) == Some(Seq::<Seq<char>>::empty())
        &&& named_by_deps(s, rows, after, deps, row.id)
        &&& blocks_grow(rows, after, row.id)
        &&& metadata matches Some(v) ==> flat(v) ==> readable(row) && task_of(row).metadata
            == Some(json_view(v))
        &&& metadata is None ==> readable(row)
    }
    &&& outside_kept(s, rows, after)
    &&& unique_ids(rows) ==> unique_ids(after)
    &&& no_cycles(s, rows) ==> no_cycles(s, after)
}

impl TaskBoard {
    /// Adds `id` to what each of the dependencies blocks.
    fn link(&self, rows: &mut Vec<TeamTaskRow>, team_id: &str, deps: &[String], id: &str)
        ensures
            row_views(final(rows)@) == linked(
                self.scope(team_id@),
                row_views(old(rows)@),
                texts(deps@),
                id@,
            ),
            (forall|k: int|
                0 <= k < deps@.len() ==> found(
                    self.scope(team_id@),
                    row_views(old(rows)@),
                    #[trigger] texts(deps@)[k],
                ) is Some) ==> named_by_deps(
                self.scope(team_id@),
                row_views(old(rows)@),
                row_views(final(rows)@),
                texts(deps@),
                id@,
            ),
            blocks_grow(row_views(old(rows)@), row_views(final(rows)@), id@),
    {
        let ghost s = self.scope(team_id@);
        let ghost start = row_views(rows@);
        let ghost all = texts(deps@);
        let mut i: usize = 0;
        while i < deps.len()
            invariant
                i <= deps@.len(),
                s == self.scope(team_id@),
                all == texts(deps@),
                row_views(rows@) == linked(s, start, all.take(i as int), id@),
                start == row_views(old(rows)@),
                blocks_grow(start, row_views(rows@), id@),
                forall|k: int|
                    0 <= k < i ==> {
                        let j = found(s, start, #[trigger] all[k]);
                        j is Some && json_ids(start[j->0].blocks) is Some ==> listed(
                            row_views(rows@)[j->0].blocks,
                        ).contains(id@)
                    },
            decreases deps@.len() - i,
        {
            let ghost before = row_views(rows@);
            proof {
                assert(all.take(i + 1).drop_last() =~= all.take(i as int));
                assert(all.take(i + 1).last() == deps@[i as int]@);
                lemma_linked_kept(s, start, all.take(i as int), id@);
                lemma_found_same_places(s, start, before, deps@[i as int]@);
                assert forall|k: int| 0 <= k < i && found(
                    s,
                    start,
                    #[trigger] all[k],
                ) is Some implies 0 <= found(s, start, all[k])->0 < start.len() by {
                    lemma_found(s, start, all[k]);
                }
            }
            if let Some(at) = self.find_task(rows, team_id, deps[i].as_str()) {
                append_to_blocks(rows, at, id);
                proof {
                    let after = row_views(rows@);
                    assert(after[at as int] == rows@[at as int]@);
                    if json_ids(before[at as int].blocks) is Some {
                        let ids = json_ids(before[at as int].blocks)->0;
                        assert(listed(after[at as int].blocks) == ids.push(id@));
                        assert(ids.push(id@)[ids.len() as int] == id@);
                    }
                    assert forall|j: int|
                        0 <= j < start.len() && json_ids((#[trigger] start[j]).blocks) is Some
                        implies json_ids(after[j].blocks) is Some && followed_by(
                        listed(start[j].blocks),
                        listed(after[j].blocks),
                        id@,
                    ) by {
                        if j != at {
                            assert(after[j] == before[j]);
                        }
                    }
                }
            }
            i = i + 1;
        }
        assert(all.take(i as int) =~= all);
    }

    /// Creates a task under a fresh id. It is pending and belongs to the
    /// engagement of the board; each of its dependencies is told of it.
    pub fn create_task(
        &self,
        store: &mut TaskStore,
        id: &str,
        now: i64,
        team_id: &str,
        subject: &str,
        description: Option<&str>,
        owner: Option<&str>,
        blocked_by: &[String],
        expected_output: Option<&str>,
    ) -> (r: Result<TeamTask, TeamError>)
        ensures
            ({
                let s = self.scope(team_id@);
                let rows = old(store).tasks();
                let deps = texts(blocked_by@);
                let row = new_row(
                    s,
                    id@,
                    now as int,
                    subject@,
                    opt_str(description),
                    opt_str(owner),
                    deps,
                    opt_str(expected_output),
                    opt_json(self.new_task_metadata()),
                );
                create_effect(
                    s,
                    self.announcing(),
                    self.new_task_metadata(),
                    rows,
                    old(store).announced(),
                    row,
                    deps,
                    final(store).tasks(),
                    final(store).announced(),
                    r,
                )
            }),
            r matches Ok(task) ==> {
                &&& task.id@ == id@
                &&& task.team_id@ == team_id@
                &&& task.subject@ == subject@
                &&& opt_text(task.description) == opt_str(description)
                &&& opt_text(task.owner) == opt_str(owner)
                &&& opt_text(task.expected_output) == opt_str(expected_output)
                &&& task.status == TaskStatus::Pending
                &&& texts(task.blocked_by@) == texts(blocked_by@)
                &&& task.blocks@.len() == 0
                &&& task.created_at == now
                &&& task.updated_at == now
                &&& task.result is None
                &&& task.input_context is None
            },
    {
        let ghost s = self.scope(team_id@);
        let ghost rows0 = store.tasks();
        let ghost deps = texts(blocked_by@);
        if let Some(dep) = self.missing(&store.rows, team_id, blocked_by) {
            return Err(TeamError::BlockedTaskNotFound(dep));
        }
        if is_taken(&store.rows, id) {
            return Err(TeamError::TaskIdTaken(id.to_owned()));
        }
        let edges = self.edges(&store.rows, team_id);
        if let Some(dependency) = find_cyclic(edges.as_slice(), id, blocked_by) {
            return Err(TeamError::CyclicDependency { task_id: id.to_owned(), dependency });
        }
        let blocked_by_json = match write_ids(blocked_by) {
            Ok(text) => text,
            Err(e) => return Err(TeamError::Json(e)),
        };
        let metadata = match metadata_text(&self.task_metadata) {
            Ok(text) => text,
            Err(e) => return Err(TeamError::Json(e)),
        };
        let row = TeamTaskRow {
            id: id.to_owned(),
            team_id: team_id.to_owned(),
            subject: subject.to_owned(),
            description: own_opt(description),
            status: TaskStatus::Pending.as_str().to_owned(),
            owner: own_opt(owner),
            blocked_by: blocked_by_json,
            blocks: "[]".to_owned(),
            metadata,
            created_at: now,
            updated_at: now,
            engagement_id: copy_opt(&self.engagement_id),
            expected_output: own_opt(expected_output),
            result: None,
            input_context: None,
        };
        let task = TeamTask::from_row(&row);
        let announced = TeamTask::from_row(&row);
        let ghost view = row@;
        store.rows.push(row);
        assert(store.tasks() =~= rows0.push(view));
        proof {
            assert forall|k: int| 0 <= k < deps.len() implies found(
                s,
                rows0.push(view),
                #[trigger] deps[k],
            ) == found(s, rows0, deps[k]) && found(s, rows0, deps[k]) is Some by {
                lemma_first_missing_none(s, rows0, deps, k);
                lemma_found_after_push(s, rows0, view, deps[k]);
            }
        }
        self.link(&mut store.rows, team_id, blocked_by, id);
        proof {
            law_create_stays_in_scope(s, rows0, view, deps);
            if no_cycles(s, rows0) {
                lemma_create_no_cycles(s, rows0, view, deps);
            }
            assert forall|k: int| 0 <= k < deps.len() implies {
                let i = found(s, rows0, #[trigger] deps[k]);
                i is Some && (json_ids(rows0[i->0].blocks) is Some ==> listed(
                    store.tasks()[i->0].blocks,
                ).contains(id@))
            } by {
                lemma_found(s, rows0, deps[k]);
                let i = found(s, rows0, deps[k])->0;
                assert(rows0.push(view)[i] == rows0[i]);
            }
            assert(blocks_grow(rows0, store.tasks(), id@)) by {
                assert forall|j: int|
                    0 <= j < rows0.len() && json_ids((#[trigger] rows0[j]).blocks) is Some
                    implies json_ids(store.tasks()[j].blocks) is Some && followed_by(
                    listed(rows0[j].blocks),
                    listed(store.tasks()[j].blocks),
                    id@,
                ) by {
                    assert(rows0.push(view)[j] == rows0[j]);
                }
            }
        }
        match task {
            Ok(task) => {
                if self.announces {
                    if let Ok(copy) = announced {
                        self.announce(store, copy, TeamTaskChange::Created);
                    }
                }
                proof {
                    law_stored_status_reads_back(TaskStatus::Pending);
                    assert(texts(task.blocks@).len() == task.blocks@.len());
                }
                Ok(task)
            },
            Err(e) => Err(TeamError::Json(e)),
        }
    }
}

/// None of `ids` that the scope holds waits on `id`.
pub open spec fn all_released(
    s: Scope,
    rows: Seq<RowView>,
    ids: Seq<Seq<char>>,
    id: Seq<char>,
) -> bool {
    forall|k: int|
        0 <= k < ids.len() ==> {
            let i = found(s, rows, #[trigger] ids[k]);
            i is Some ==> !listed(rows[i->0].blocked_by).contains(id)
        }
}

/// The task is pending and waits on nothing but `id`, if on that.
pub open spec fn waits_only_on(row: RowView, id: Seq<char>) -> bool {
    &&& row.status == TaskStatus::Pending.text()
    &&& json_ids(row.blocked_by) matches Some(ids) && forall|x: Seq<char>| #[trigger]
        ids.contains(x) ==> x == id
}

/// The id is another one.
pub open spec fn other_than(id: Seq<char>) -> spec_fn(Seq<char>) -> bool {
    |x: Seq<char>| x != id
}

/// What the row waits on can still be read if it could, and is the same, or the
/// same without `id`. What cannot be read is left as it is.
pub open spec fn list_kept(before: RowView, after: RowView, id: Seq<char>) -> bool {
    match json_ids(before.blocked_by) {
        Some(ids) => {
            &&& json_ids(after.blocked_by) is Some
            &&& !ids.contains(id) ==> json_ids(after.blocked_by) == Some(ids)
            &&& json_ids(after.blocked_by) == Some(ids) || json_ids(after.blocked_by) == Some(
                ids.filter(other_than(id)),
            )
        },
        None => after.blocked_by == before.blocked_by,
    }
}

/// The task is completed and has a result to hand on.
pub open spec fn hands_on(s: Scope, row: RowView) -> bool {
    &&& visible(s, row)
    &&& row.status == TaskStatus::Completed.text()
    &&& row.result matches Some(r) && !is_blank(r)
}

/// Each of `ids` that waited on nothing but `id` has its context.
pub open spec fn all_informed(
    s: Scope,
    before: Seq<RowView>,
    after: Seq<RowView>,
    ids: Seq<Seq<char>>,
    id: Seq<char>,
) -> bool {
    forall|k: int|
        0 <= k < ids.len() && #[trigger] ids[k] != id ==> {
            let j = found(s, before, ids[k]);
            j is Some && waits_only_on(before[j->0], id) ==> after[j->0].input_context is Some
        }
}

/// Each of `ids` that waited on nothing but `id`, and to which a completed task has
/// a result to hand on, has its context.
pub open spec fn all_fed(
    s: Scope,
    before: Seq<RowView>,
    after: Seq<RowView>,
    ids: Seq<Seq<char>>,
    id: Seq<char>,
) -> bool {
    forall|k: int, c: int|
        0 <= k < ids.len() && 0 <= c < before.len() && feeds(
            s,
            #[trigger] before[c],
            #[trigger] ids[k],
        ) ==> {
            let j = found(s, before, ids[k]);
            j is Some && waits_only_on(before[j->0], id) ==> after[j->0].input_context is Some
        }
}

/// Only a task that waited on nothing but `id` was given a context.
pub open spec fn only_ready_informed(
    before: Seq<RowView>,
    after: Seq<RowView>,
    id: Seq<char>,
) -> bool {
    forall|j: int|
        0 <= j < before.len() && (#[trigger] before[j]).input_context is None
            && after[j].input_context is Some ==> waits_only_on(before[j], id)
}

/// A task that waits on nothing but `id` after parts of its list were taken out did
/// so before.
proof fn lemma_waited_only_on(before: RowView, after: RowView, id: Seq<char>)
    requires
        list_kept(before, after, id),
        before.status == after.status,
        waits_only_on(after, id),
    ensures
        waits_only_on(before, id),
{
    if json_ids(before.blocked_by) is Some {
        let ids = json_ids(before.blocked_by)->0;
        let keep = other_than(id);
        let now = json_ids(after.blocked_by)->0;
        assert(now == ids || now == ids.filter(keep));
        assert forall|x: Seq<char>| #[trigger] ids.contains(x) implies x == id by {
            lemma_filter_contains(ids, keep, x);
            if x != id {
                assert(now.contains(x));
            }
        }
    }
}

pub(crate) proof fn lemma_filter_contains<A>(s: Seq<A>, pred: spec_fn(A) -> bool, x: A)
    ensures
        s.filter(pred).contains(x) <==> s.contains(x) && pred(x),
    decreases s.len(),
{
    reveal(Seq::filter);
    if s.len() > 0 {
        let front = s.drop_last();
        lemma_filter_contains(front, pred, x);
        let low = front.filter(pred);
        if s.contains(x) && x != s.last() {
            let k = choose|k: int| 0 <= k < s.len() && s[k] == x;
            assert(front[k] == x);
        }
        if front.contains(x) {
            let k = choose|k: int| 0 <= k < front.len() && front[k] == x;
            assert(s[k] == x);
        }
        assert(s[s.len() - 1] == s.last());
        if pred(s.last()) {
            let out = low.push(s.last());
            assert(out[low.len() as int] == s.last());
            if low.contains(x) {
                let k = choose|k: int| 0 <= k < low.len() && low[k] == x;
                assert(out[k] == x);
            }
            if out.contains(x) && x != s.last() {
                let k = choose|k: int| 0 <= k < out.len() && out[k] == x;
                assert(low[k] == x);
            }
        }
    }
}

impl TaskBoard {
    /// Releases the task at `i` from `completed` and hands it its context.
    fn unblock_at(
        &self,
        rows: &mut Vec<TeamTaskRow>,
        team_id: &str,
        i: usize,
        completed: &str,
    )
        requires
            i < old(rows)@.len(),
            visible(self.scope(team_id@), old(rows)@[i as int]@),
        ensures
            final(rows)@.len() == old(rows)@.len(),
            row_views(final(rows)@) == materialized(
                self.scope(team_id@),
                row_views(old(rows)@).update(
                    i as int,
                    released(old(rows)@[i as int]@, completed@),
                ),
                i as int,
            ),
            no_cycles(self.scope(team_id@), row_views(old(rows)@)) ==> no_cycles(
                self.scope(team_id@),
                row_views(final(rows)@),
            ),
            forall|j: int, x: Seq<char>|
                0 <= j < old(rows)@.len() && #[trigger] listed(
                    final(rows)@[j].blocked_by@,
                ).contains(x) ==> listed(old(rows)@[j].blocked_by@).contains(x) && (j == i ==> x
                    != completed@),
            forall|j: int|
                0 <= j < old(rows)@.len() && waits_only_on(
                    #[trigger] old(rows)@[j]@,
                    completed@,
                ) ==> waits_only_on(final(rows)@[j]@, completed@),
            forall|j: int|
                0 <= j < old(rows)@.len() && (#[trigger] old(rows)@[j]).input_context is Some
                    ==> final(rows)@[j].input_context is Some,
            forall|j: int|
                0 <= j < old(rows)@.len() ==> list_kept(
                    (#[trigger] old(rows)@[j])@,
                    final(rows)@[j]@,
                    completed@,
                ),
            forall|c: int|
                0 <= c < old(rows)@.len() && feeds(
                    self.scope(team_id@),
                    #[trigger] old(rows)@[c]@,
                    old(rows)@[i as int].id@,
                ) && waits_only_on(old(rows)@[i as int]@, completed@)
                    ==> final(rows)@[i as int].input_context is Some,
            forall|j: int|
                0 <= j < old(rows)@.len() && (#[trigger] old(rows)@[j]).input_context is None
                    && final(rows)@[j].input_context is Some ==> waits_only_on(
                    old(rows)@[j]@,
                    completed@,
                ),
    {
        let ghost s = self.scope(team_id@);
        let ghost before = row_views(rows@);
        remove_from_blocked_by(rows, i, completed);
        let ghost mid = row_views(rows@);
        proof {
            let keep = |x: Seq<char>| x != completed@;
            assert forall|x: Seq<char>| #[trigger] listed(
                mid[i as int].blocked_by,
            ).contains(x) implies listed(before[i as int].blocked_by).contains(x) && x
                != completed@ by {
                lemma_filter_contains(listed(before[i as int].blocked_by), keep, x);
            }
            if no_cycles(s, before) {
                lemma_fewer_no_cycles(s, before, i as int, mid[i as int]);
            }
            assert(mid =~= before.update(i as int, mid[i as int]));
            assert forall|j: int| 0 <= j < before.len() implies list_kept(
                #[trigger] before[j],
                mid[j],
                completed@,
            ) by {
                if j == i && json_ids(before[j].blocked_by) is Some {
                    let ids = json_ids(before[j].blocked_by)->0;
                    if !ids.contains(completed@) {
                        assert forall|k: int| 0 <= k < ids.len() implies keep(#[trigger] ids[k]) by {
                            assert(ids.contains(ids[k]));
                        }
                        lemma_filter_all(ids, keep);
                    }
                }
            }
            assert forall|j: int| 0 <= j < before.len() && waits_only_on(
                #[trigger] before[j],
                completed@,
            ) implies waits_only_on(mid[j], completed@) by {
                if j == i {
                    let ids = json_ids(mid[j].blocked_by)->0;
                    assert forall|x: Seq<char>| #[trigger] ids.contains(x) implies x
                        == completed@ by {
                        lemma_filter_contains(listed(before[j].blocked_by), keep, x);
                    }
                }
            }
            if waits_only_on(before[i as int], completed@) {
                let ids = json_ids(mid[i as int].blocked_by)->0;
                assert(ids.len() == 0) by {
                    if ids.len() > 0 {
                        assert(ids.contains(ids[0]));
                        lemma_filter_contains(listed(before[i as int].blocked_by), keep, ids[0]);
                    }
                }
                assert(ready(mid[i as int]));
            }
        }
        let _ = self.materialize_at(rows, team_id, i);
        proof {
            lemma_materialized_graph(s, mid, i as int);
            let after = row_views(rows@);
            assert forall|j: int| 0 <= j < before.len() implies #[trigger] before[j] == old(
                rows,
            )@[j]@ && after[j] == rows@[j]@ && after[j].status == mid[j].status
                && after[j].blocked_by == mid[j].blocked_by by {}
            assert forall|j: int| 0 <= j < old(rows)@.len() && waits_only_on(
                #[trigger] old(rows)@[j]@,
                completed@,
            ) implies waits_only_on(rows@[j]@, completed@) by {
                assert(before[j] == old(rows)@[j]@);
                assert(after[j] == rows@[j]@);
            }
            assert forall|j: int|
                0 <= j < old(rows)@.len() && (#[trigger] old(rows)@[j]).input_context is Some
                implies rows@[j].input_context is Some by {
                assert(before[j] == old(rows)@[j]@);
                assert(mid[j].input_context == before[j].input_context);
                assert(after[j] == rows@[j]@);
                assert(after[j].input_context is Some);
            }
            assert forall|j: int| 0 <= j < old(rows)@.len() implies list_kept(
                (#[trigger] old(rows)@[j])@,
                rows@[j]@,
                completed@,
            ) by {
                assert(before[j] == old(rows)@[j]@);
                assert(after[j] == rows@[j]@);
            }
            assert forall|c: int|
                0 <= c < old(rows)@.len() && feeds(
                    s,
                    #[trigger] old(rows)@[c]@,
                    old(rows)@[i as int].id@,
                ) && waits_only_on(old(rows)@[i as int]@, completed@) implies rows@[i as int]
                .input_context is Some by {
                let id = before[i as int].id;
                let fed = |r: RowView| feeds(s, r, id);
                assert(before[c] == old(rows)@[c]@);
                assert(fed(mid[c]));
                assert(mid.contains(mid[c]));
                lemma_filter_contains(mid, fed, mid[c]);
                crate::order::law_sorted_keeps_values(older(), mid.filter(fed));
                assert(mid.filter(fed).len() > 0);
                assert(mid[i as int].id == id);
                assert(after[i as int].input_context is Some);
            }
            assert forall|j: int|
                0 <= j < old(rows)@.len() && (#[trigger] old(rows)@[j]).input_context is None
                    && rows@[j].input_context is Some implies waits_only_on(
                old(rows)@[j]@,
                completed@,
            ) by {
                assert(before[j] == old(rows)@[j]@);
                assert(after[j] == rows@[j]@);
                assert(mid[j].input_context == before[j].input_context);
                assert(j == i && ready(mid[j]));
                assert(list_kept(before[j], mid[j], completed@));
                assert(waits_only_on(mid[j], completed@));
                lemma_waited_only_on(before[j], mid[j], completed@);
            }
            assert forall|j: int, x: Seq<char>|
                0 <= j < before.len() && #[trigger] listed(rows@[j].blocked_by@).contains(
                    x,
                ) implies listed(old(rows)@[j].blocked_by@).contains(x) && (j == i ==> x
                != completed@) by {
                assert(after[j] == rows@[j]@);
                assert(after[j].blocked_by == mid[j].blocked_by);
                assert(before[j] == old(rows)@[j]@);
            }
        }
    }

    /// Releases every task that the completed one blocks and that the board
    /// holds.
    fn check_unblocks(
        &self,
        store: &mut TaskStore,
        team_id: &str,
        completed: &str,
        blocks: &Vec<String>,
    )
        ensures
            final(store).tasks() == unblocked(
                self.scope(team_id@),
                old(store).tasks(),
                completed@,
                texts(blocks@),
            ),
            final(store).announced() == if self.announcing() {
                old(store).announced() + unblock_events(
                    self.scope(team_id@),
                    old(store).tasks(),
                    completed@,
                    texts(blocks@),
                )
            } else {
                old(store).announced()
            },
            no_cycles(self.scope(team_id@), old(store).tasks()) ==> no_cycles(
                self.scope(team_id@),
                final(store).tasks(),
            ),
            all_released(self.scope(team_id@), final(store).tasks(), texts(blocks@), completed@),
            forall|j: int|
                0 <= j < old(store).tasks().len() ==> list_kept(
                    #[trigger] old(store).tasks()[j],
                    final(store).tasks()[j],
                    completed@,
                ),
            forall|c: int|
                0 <= c < old(store).tasks().len() && hands_on(
                    self.scope(team_id@),
                    #[trigger] old(store).tasks()[c],
                ) && listed(old(store).tasks()[c].blocks) == texts(blocks@) ==> all_informed(
                    self.scope(team_id@),
                    old(store).tasks(),
                    final(store).tasks(),
                    texts(blocks@),
                    completed@,
                ),
            all_fed(
                self.scope(team_id@),
                old(store).tasks(),
                final(store).tasks(),
                texts(blocks@),
                completed@,
            ),
            only_ready_informed(old(store).tasks(), final(store).tasks(), completed@),
    {
        let ghost s = self.scope(team_id@);
        let ghost start = store.tasks();
        let ghost said = store.announced();
        let ghost all = texts(blocks@);
        let mut i: usize = 0;
        assert(store.announced() =~= said + Seq::<ChangeView>::empty());
        while i < blocks.len()
            invariant
                i <= blocks@.len(),
                s == self.scope(team_id@),
                all == texts(blocks@),
                start == old(store).tasks(),
                store.tasks() == unblocked(s, start, completed@, all.take(i as int)),
                store.announced() == if self.announcing() {
                    said + unblock_events(s, start, completed@, all.take(i as int))
                } else {
                    said
                },
                no_cycles(s, start) ==> no_cycles(s, store.tasks()),
                all_released(s, store.tasks(), all.take(i as int), completed@),
                forall|j: int|
                    0 <= j < start.len() && waits_only_on(#[trigger] start[j], completed@)
                        ==> waits_only_on(store.tasks()[j], completed@),
                forall|j: int|
                    0 <= j < start.len() ==> list_kept(
                        #[trigger] start[j],
                        store.tasks()[j],
                        completed@,
                    ),
                store.tasks().len() == start.len(),
                forall|j: int, x: Seq<char>|
                    0 <= j < start.len() && #[trigger] listed(store.tasks()[j].blocked_by).contains(
                        x,
                    ) ==> listed(start[j].blocked_by).contains(x),
                forall|c: int|
                    0 <= c < start.len() && hands_on(s, #[trigger] start[c]) && listed(
                        start[c].blocks,
                    ) == all ==> all_informed(
                        s,
                        start,
                        store.tasks(),
                        all.take(i as int),
                        completed@,
                    ),
                all_fed(s, start, store.tasks(), all.take(i as int), completed@),
                only_ready_informed(start, store.tasks(), completed@),
            decreases blocks@.len() - i,
        {
            let ghost before = store.tasks();
            proof {
                lemma_unblocked_kept(s, start, completed@, all.take(i as int));
                lemma_found_same_places(s, start, before, blocks@[i as int]@);
            }
            let ghost next = all.take(i + 1);
            proof {
                assert(next.drop_last() =~= all.take(i as int));
                assert(next.last() == blocks@[i as int]@);
                lemma_unblocked_one_kept(s, before, completed@, next.last());
                lemma_found(s, before, next.last());
                lemma_found_same_places(
                    s,
                    before,
                    unblocked_one(s, before, completed@, next.last()),
                    next.last(),
                );
            }
            if let Some(at) = self.find_task(&store.rows, team_id, blocks[i].as_str()) {
                let ghost old_rows = store.rows@;
                self.unblock_at(&mut store.rows, team_id, at, completed);
                let ghost after = store.tasks();
                assert(after == unblocked(s, start, completed@, next));
                proof {
                    assert forall|k: int| 0 <= k < next.len() implies {
                        let j = found(s, after, #[trigger] next[k]);
                        j is Some ==> !listed(after[j->0].blocked_by).contains(completed@)
                    } by {
                        lemma_found(s, after, next[k]);
                        lemma_found_same_places(s, before, after, next[k]);
                        if k < i {
                            assert(all.take(i as int)[k] == next[k]);
                        }
                        if found(s, after, next[k]) is Some {
                            let j = found(s, after, next[k])->0;
                            assert(after[j] == store.rows@[j]@);
                            assert(before[j] == old_rows[j]@);
                        }
                    }
                    assert forall|j: int| 0 <= j < start.len() implies #[trigger] before[j]
                        == old_rows[j]@ && after[j] == store.rows@[j]@ by {}
                    assert forall|j: int| 0 <= j < start.len() && waits_only_on(
                        #[trigger] start[j],
                        completed@,
                    ) implies waits_only_on(after[j], completed@) by {
                        assert(before[j] == old_rows[j]@);
                    }
                    assert forall|j: int, x: Seq<char>|
                        0 <= j < start.len() && #[trigger] listed(after[j].blocked_by).contains(
                            x,
                        ) implies listed(start[j].blocked_by).contains(x) by {
                        assert(before[j] == old_rows[j]@);
                        assert(after[j] == store.rows@[j]@);
                        assert(listed(store.rows@[j].blocked_by@).contains(x));
                        assert(listed(before[j].blocked_by).contains(x));
                    }
                    assert forall|j: int| 0 <= j < start.len() implies list_kept(
                        #[trigger] start[j],
                        after[j],
                        completed@,
                    ) by {
                        assert(before[j] == old_rows[j]@);
                        assert(after[j] == store.rows@[j]@);
                        assert(list_kept(start[j], before[j], completed@));
                        assert(list_kept(old_rows[j]@, store.rows@[j]@, completed@));
                        if json_ids(start[j].blocked_by) is Some {
                            let ids = json_ids(start[j].blocked_by)->0;
                            let keep = other_than(completed@);
                            assert forall|n: int| 0 <= n < ids.filter(keep).len() implies keep(
                                #[trigger] ids.filter(keep)[n],
                            ) by {
                                assert(ids.filter(keep).contains(ids.filter(keep)[n]));
                                lemma_filter_contains(ids, keep, ids.filter(keep)[n]);
                            }
                            lemma_filter_all(ids.filter(keep), keep);
                        }
                    }
                    assert forall|c: int|
                        0 <= c < start.len() && hands_on(s, #[trigger] start[c]) && listed(
                            start[c].blocks,
                        ) == all implies all_informed(s, start, after, next, completed@) by {
                        assert forall|k: int| 0 <= k < next.len() && #[trigger] next[k]
                            != completed@ implies {
                            let j = found(s, start, next[k]);
                            j is Some && waits_only_on(start[j->0], completed@)
                                ==> after[j->0].input_context is Some
                        } by {
                            lemma_found(s, start, next[k]);
                            if let Some(j) = found(s, start, next[k]) {
                                assert(before[j] == old_rows[j]@);
                                if k < i {
                                    assert(all.take(i as int)[k] == next[k]);
                                } else if waits_only_on(start[j], completed@) {
                                    assert(j == at);
                                    law_unblocking_only_releases(
                                        s,
                                        start,
                                        completed@,
                                        all.take(i as int),
                                        c,
                                    );
                                    assert(before[c] == old_rows[c]@);
                                    assert(all[i as int] == next[k]);
                                    assert(all.contains(next[k]));
                                    assert(feeds(s, old_rows[c]@, old_rows[at as int].id@));
                                }
                            }
                        }
                    }
                }
                proof {
                    assert forall|k: int, c: int|
                        0 <= k < next.len() && 0 <= c < start.len() && feeds(
                            s,
                            #[trigger] start[c],
                            #[trigger] next[k],
                        ) implies {
                        let j = found(s, start, next[k]);
                        j is Some && waits_only_on(start[j->0], completed@)
                            ==> after[j->0].input_context is Some
                    } by {
                        lemma_found(s, start, next[k]);
                        if let Some(j) = found(s, start, next[k]) {
                            assert(before[j] == old_rows[j]@);
                            assert(after[j] == store.rows@[j]@);
                            if k < i {
                                assert(all.take(i as int)[k] == next[k]);
                            } else if waits_only_on(start[j], completed@) {
                                assert(j == at);
                                law_unblocking_only_releases(
                                    s,
                                    start,
                                    completed@,
                                    all.take(i as int),
                                    c,
                                );
                                assert(before[c] == old_rows[c]@);
                                assert(waits_only_on(before[j], completed@));
                                assert(feeds(s, old_rows[c]@, old_rows[at as int].id@));
                            }
                        }
                    }
                    assert forall|j: int|
                        0 <= j < start.len() && (#[trigger] start[j]).input_context is None
                            && after[j].input_context is Some implies waits_only_on(
                        start[j],
                        completed@,
                    ) by {
                        assert(before[j] == old_rows[j]@);
                        assert(after[j] == store.rows@[j]@);
                        if before[j].input_context is None {
                            assert(waits_only_on(old_rows[j]@, completed@));
                            law_unblocking_only_releases(
                                s,
                                start,
                                completed@,
                                all.take(i as int),
                                j,
                            );
                            assert(list_kept(start[j], before[j], completed@));
                            lemma_waited_only_on(start[j], before[j], completed@);
                        }
                    }
                }
                if self.announces {
                    if let Ok(task) = TeamTask::from_row(&store.rows[at]) {
                        self.announce(store, task, TeamTaskChange::Updated);
                    }
                }
                assert(self.announcing() ==> store.announced() =~= said + unblock_events(
                    s,
                    start,
                    completed@,
                    next,
                ));
            } else {
                proof {
                    assert forall|k: int| 0 <= k < next.len() implies {
                        let j = found(s, before, #[trigger] next[k]);
                        j is Some ==> !listed(before[j->0].blocked_by).contains(completed@)
                    } by {
                        if k < i {
                            assert(all.take(i as int)[k] == next[k]);
                        }
                    }
                    assert forall|c: int|
                        0 <= c < start.len() && hands_on(s, #[trigger] start[c]) && listed(
                            start[c].blocks,
                        ) == all implies all_informed(s, start, before, next, completed@) by {
                        assert forall|k: int| 0 <= k < next.len() && #[trigger] next[k]
                            != completed@ implies {
                            let j = found(s, start, next[k]);
                            j is Some && waits_only_on(start[j->0], completed@)
                                ==> before[j->0].input_context is Some
                        } by {
                            if k < i {
                                assert(all.take(i as int)[k] == next[k]);
                            }
                        }
                    }
                    assert forall|k: int, c: int|
                        0 <= k < next.len() && 0 <= c < start.len() && feeds(
                            s,
                            #[trigger] start[c],
                            #[trigger] next[k],
                        ) implies {
                        let j = found(s, start, next[k]);
                        j is Some && waits_only_on(start[j->0], completed@)
                            ==> before[j->0].input_context is Some
                    } by {
                        if k < i {
                            assert(all.take(i as int)[k] == next[k]);
                        }
                    }
                }
            }
            i = i + 1;
        }
        assert(all.take(i as int) =~= all);
    }
}

/// The dependency of an update that would close a cycle.
pub open spec fn update_cycle(
    s: Scope,
    rows: Seq<RowView>,
    id: Seq<char>,
    u: UpdateView,
) -> Option<Seq<char>> {
    match u.blocked_by {
        Some(deps) => first_cyclic(graph_of(s, rows), id, deps),
        None => None,
    }
}

/// The update is written: the scope holds the task, and no cycle would close.
pub open spec fn updates(s: Scope, rows: Seq<RowView>, id: Seq<char>, u: UpdateView) -> bool {
    found(s, rows, id) is Some && update_cycle(s, rows, id, u) is None
}

/// What a request to change a task comes to, where `after` are the rows that
/// it leaves.
pub open spec fn update_outcome(
    s: Scope,
    rows: Seq<RowView>,
    id: Seq<char>,
    u: UpdateView,
    after: Seq<RowView>,
    r: Result<TeamTask, TeamError>,
) -> bool {
    if found(s, rows, id) is None {
        r matches Err(TeamError::TaskNotFound(x)) && x@ == id
    } else if update_cycle(s, rows, id, u) is Some {
        r matches Err(TeamError::CyclicDependency { task_id, dependency }) && task_id@ == id
            && Some(dependency@) == update_cycle(s, rows, id, u)
    } else {
        let i = found(s, rows, id)->0;
        if u.status == Some(TaskStatus::Completed) && json_ids(rows[i].blocks) is None {
            r matches Err(TeamError::Json(_))
        } else if readable(after[i]) {
            r matches Ok(task) && task@ == task_of(after[i])
        } else {
            r matches Err(TeamError::Json(_))
        }
    }
}

/// What an update announces: the tasks that it released, then the task itself
/// where it can be read.
pub open spec fn update_events(
    s: Scope,
    rows: Seq<RowView>,
    id: Seq<char>,
    u: UpdateView,
    now: int,
    r: Result<TeamTask, TeamError>,
) -> Seq<ChangeView> {
    let i = found(s, rows, id)->0;
    let released = if updates(s, rows, id, u) && u.status == Some(TaskStatus::Completed) {
        unblock_events(
            s,
            rows.update(i, changed(rows[i], u, now)),
            id,
            listed(rows[i].blocks),
        )
    } else {
        Seq::empty()
    };
    match r {
        Ok(task) => released.push(ChangeView { task: task@, created: false }),
        Err(_) => released,
    }
}

/// All that a request to change a task does: what is stored and announced, that
/// the list and the metadata that it names read back as they were given, what a
/// completed task releases and informs, and what stays as it was.
pub open spec fn update_effect(
    s: Scope,
    announces: bool,
    rows: Seq<RowView>,
    said: Seq<ChangeView>,
    id: Seq<char>,
    u: UpdateView,
    metadata: Option<serde_json::Value>,
    now: int,
    after: Seq<RowView>,
    told: Seq<ChangeView>,
    r: Result<TeamTask, TeamError>,
) -> bool {
    let at = found(s, rows, id)->0;
    let completes = updates(s, rows, id, u) && u.status == Some(TaskStatus::Completed);
    &&& update_outcome(s, rows, id, u, after, r)
    &&& after == if updates(s, rows, id, u) {
        updated(s, rows, at, u, now)
    } else {
        rows
    }
    &&& told == if announces {
        said + update_events(s, rows, id, u, now, r)
    } else {
        said
    }
    &&& updates(s, rows, id, u) ==> {
        &&& u.blocked_by matches Some(deps) ==> json_ids(after[at].blocked_by) == Some(deps)
        &&& metadata matches Some(v) ==> flat(v) ==> task_of(after[at]).metadata == Some(
            json_view(v),
        )
        &&& readable(rows[at]) && (metadata matches Some(v) ==> flat(v)) ==> readable(after[at])
    }
    &&& completes && json_ids(rows[at].blocks) is Some ==> {
        &&& all_released(s, after, listed(rows[at].blocks), id)
        &&& forall|j: int|
            0 <= j < rows.len() && j != at ==> list_kept(#[trigger] rows[j], after[j], id)
        &&& rows[at].result matches Some(t) ==> !is_blank(t) ==> all_informed(
            s,
            rows,
            after,
            listed(rows[at].blocks),
            id,
        )
        &&& all_fed(s, rows.update(at, changed(rows[at], u, now)), after, listed(rows[at].blocks), id)
        &&& only_ready_informed(rows.update(at, changed(rows[at], u, now)), after, id)
    }
    &&& outside_kept(s, rows, after)
    &&& unique_ids(rows) ==> unique_ids(after)
    &&& no_cycles(s, rows) ==> no_cycles(s, after)
}

/// An update, with its JSON documents written.
struct UpdateTaskParams {
    status: Option<TaskStatus>,
    description: Option<String>,
    owner: Option<String>,
    blocked_by: Option<String>,
    metadata: Option<String>,
}

proof fn lemma_update_is_carried_out(
    before: RowView,
    after: RowView,
    u: TaskUpdate,
    now: i64,
    task: TeamTask,
)
    requires
        task@ == task_of(after),
        after == (RowView {
            blocked_by: after.blocked_by,
            input_context: after.input_context,
            ..changed(before, u@, now as int)
        }),
        u@.blocked_by is Some ==> json_ids(after.blocked_by) == u@.blocked_by,
    ensures
        task.id@ == before.id,
        u.status is Some ==> task.status == u.status->0,
        u.description is Some ==> opt_text(task.description) == opt_text(u.description),
        u.owner is Some ==> opt_text(task.owner) == opt_text(u.owner),
        u.blocked_by is Some ==> texts(task.blocked_by@) == texts(u.blocked_by->0@),
        task.updated_at == now,
{
    if let Some(status) = u.status {
        law_stored_status_reads_back(status);
    }
}

fn update_params(u: &TaskUpdate) -> (r: Result<UpdateTaskParams, serde_json::Error>)
    ensures
        r is Ok,
        r->Ok_0.status == u.status,
        r->Ok_0.description == u.description,
        r->Ok_0.owner == u.owner,
        opt_text(r->Ok_0.metadata) == u@.metadata,
        u.metadata matches Some(v) ==> flat(v) ==> json_value(u@.metadata->0) == Some(
            json_view(v),
        ),
        match (r->Ok_0.blocked_by, u@.blocked_by) {
            (Some(text), Some(ids)) => text@ == ids_json(ids) && json_ids(text@) == Some(ids),
            (None, None) => true,
            _ => false,
        },
{
    let blocked_by = match &u.blocked_by {
        Some(ids) => match write_ids(ids.as_slice()) {
            Ok(text) => Some(text),
            Err(e) => return Err(e),
        },
        None => None,
    };
    let metadata = match metadata_text(&u.metadata) {
        Ok(text) => text,
        Err(e) => return Err(e),
    };
    Ok(
        UpdateTaskParams {
            status: u.status,
            description: copy_opt(&u.description),
            owner: copy_opt(&u.owner),
            blocked_by,
            metadata,
        },
    )
}

/// Writes what the update names into the row at `i`.
fn write_update(rows: &mut Vec<TeamTaskRow>, i: usize, p: UpdateTaskParams, now: i64)
    requires
        i < old(rows)@.len(),
    ensures
        final(rows)@.len() == old(rows)@.len(),
        row_views(final(rows)@) == row_views(old(rows)@).update(
            i as int,
            RowView {
                status: match p.status {
                    Some(s) => s.text(),
                    None => old(rows)@[i as int].status@,
                },
                description: if p.description is Some {
                    opt_text(p.description)
                } else {
                    opt_text(old(rows)@[i as int].description)
                },
                owner: if p.owner is Some {
                    opt_text(p.owner)
                } else {
                    opt_text(old(rows)@[i as int].owner)
                },
                blocked_by: match p.blocked_by {
                    Some(text) => text@,
                    None => old(rows)@[i as int].blocked_by@,
                },
                metadata: if p.metadata is Some {
                    opt_text(p.metadata)
                } else {
                    opt_text(old(rows)@[i as int].metadata)
                },
                updated_at: now as int,
                ..old(rows)@[i as int]@
            },
        ),
{
    let ghost start = rows@;
    let mut row = rows[i].clone();
    if let Some(status) = p.status {
        row.status = status.as_str().to_owned();
    }
    if p.description.is_some() {
        row.description = p.description;
    }
    if p.owner.is_some() {
        row.owner = p.owner;
    }
    if let Some(text) = p.blocked_by {
        row.blocked_by = text;
    }
    if p.metadata.is_some() {
        row.metadata = p.metadata;
    }
    row.updated_at = now;
    let ghost view = row@;
    rows[i] = row;
    assert(row_views(rows@) =~= row_views(start).update(i as int, view));
}

impl TaskBoard {
    /// Changes a task of the board. A task that is completed releases the
    /// tasks that wait on it.
    #[verifier::rlimit(40)]
    pub fn update_task(
        &self,
        store: &mut TaskStore,
        now: i64,
        team_id: &str,
        task_id: &str,
        update: &TaskUpdate,
    ) -> (r: Result<TeamTask, TeamError>)
        ensures
            ({
                let s = self.scope(team_id@);
                let rows = old(store).tasks();
                update_effect(
                    s,
                    self.announcing(),
                    rows,
                    old(store).announced(),
                    task_id@,
                    update@,
                    update.metadata,
                    now as int,
                    final(store).tasks(),
                    final(store).announced(),
                    r,
                )
            }),
            r matches Ok(task) ==> {
                &&& task.id@ == task_id@
                &&& update.status is Some ==> task.status == update.status->0
                &&& update.description is Some ==> opt_text(task.description) == opt_text(
                    update.description,
                )
                &&& update.owner is Some ==> opt_text(task.owner) == opt_text(update.owner)
                &&& update.blocked_by is Some ==> texts(task.blocked_by@) == texts(
                    update.blocked_by->0@,
                )
                &&& task.updated_at == now
            },
    {
        let ghost s = self.scope(team_id@);
        let ghost rows0 = store.tasks();
        let ghost said = store.announced();
        let at = match self.find_task(&store.rows, team_id, task_id) {
            Some(i) => i,
            None => {
                assert(said + Seq::<ChangeView>::empty() =~= said);
                return Err(TeamError::TaskNotFound(task_id.to_owned()));
            },
        };
        if let Some(deps) = &update.blocked_by {
            let edges = self.edges(&store.rows, team_id);
            if let Some(dependency) = find_cyclic(edges.as_slice(), task_id, deps.as_slice()) {
                assert(said + Seq::<ChangeView>::empty() =~= said);
                return Err(
                    TeamError::CyclicDependency { task_id: task_id.to_owned(), dependency },
                );
            }
        }
        let params = match update_params(update) {
            Ok(p) => p,
            Err(e) => return Err(TeamError::Json(e)),
        };
        let blocks = parse_ids(store.rows[at].blocks.as_str());
        write_update(&mut store.rows, at, params, now);
        let ghost written = store.tasks();
        proof {
            law_update_stays_in_scope(s, rows0, task_id@, update@, now as int);
            assert(written =~= rows0.update(at as int, changed(rows0[at as int], update@, now as int)));
            if no_cycles(s, rows0) {
                lemma_rewrite_no_cycles(s, rows0, at as int, written[at as int]);
            }
        }
        proof {
            if let Some(deps) = update@.blocked_by {
                assert(json_ids(written[at as int].blocked_by) == Some(deps));
                if deps.contains(task_id@) {
                    lemma_first_cyclic_none(graph_of(s, rows0), task_id@, deps, task_id@);
                    assert(reaches_in(graph_of(s, rows0), task_id@, task_id@, 0));
                    assert(reaches(graph_of(s, rows0), task_id@, task_id@));
                }
            }
        }
        let completes = match update.status {
            Some(TaskStatus::Completed) => true,
            _ => false,
        };
        if completes {
            match blocks {
                Ok(ids) => self.check_unblocks(store, team_id, task_id, &ids),
                Err(e) => {
                    assert(said + Seq::<ChangeView>::empty() =~= said);
                    return Err(TeamError::Json(e));
                },
            }
        }
        proof {
            let after = store.tasks();
            assert(after == updated(s, rows0, at as int, update@, now as int));
            assert(after[at as int] == store.rows@[at as int]@);
            assert(said + Seq::<ChangeView>::empty() =~= said);
            law_updated_task_is_found(s, rows0, task_id@, update@, now as int);
            if completes {
                assert(list_kept(written[at as int], after[at as int], task_id@));
                assert forall|j: int| 0 <= j < rows0.len() && j != at implies list_kept(
                    #[trigger] rows0[j],
                    after[j],
                    task_id@,
                ) by {
                    assert(written[j] == rows0[j]);
                }
            }
            if completes && (rows0[at as int].result matches Some(t) && !is_blank(t)) {
                let ids = listed(rows0[at as int].blocks);
                assert(hands_on(s, written[at as int]));
                assert(all_informed(s, written, after, ids, task_id@));
                assert forall|k: int| 0 <= k < ids.len() && #[trigger] ids[k] != task_id@ implies {
                    let j = found(s, rows0, ids[k]);
                    j is Some && waits_only_on(rows0[j->0], task_id@)
                        ==> after[j->0].input_context is Some
                } by {
                    lemma_found(s, rows0, ids[k]);
                    lemma_found_same_places(s, rows0, written, ids[k]);
                }
            }
        }
        match TeamTask::from_row(&store.rows[at]) {
            Ok(task) => {
                if self.announces {
                    if let Ok(copy) = TeamTask::from_row(&store.rows[at]) {
                        self.announce(store, copy, TeamTaskChange::Updated);
                    }
                }
                assert(self.announcing() ==> store.announced() =~= said + update_events(
                    s,
                    rows0,
                    task_id@,
                    update@,
                    now as int,
                    Ok(task),
                ));
                proof {
                    lemma_update_is_carried_out(
                        rows0[at as int],
                        store.tasks()[at as int],
                        *update,
                        now,
                        task,
                    );
                }
                Ok(task)
            },
            Err(e) => Err(TeamError::Json(e)),
        }
    }
}

/// The task that the board holds under the id has the result, and nothing else changed;
/// where it holds none, nothing did.
pub open spec fn result_stored(
    s: Scope,
    rows: Seq<RowView>,
    id: Seq<char>,
    result: Seq<char>,
    after: Seq<RowView>,
    r: Result<(), TeamError>,
) -> bool {
    match found(s, rows, id) {
        Some(i) => r is Ok && after == rows.update(
            i,
            RowView { result: Some(result), ..rows[i] },
        ),
        None => (r matches Err(TeamError::TaskNotFound(x)) && x@ == id) && after == rows,
    }
}

/// The row is the first one of the scope that is in progress.
pub open spec fn first_in_progress(s: Scope, rows: Seq<RowView>, i: int) -> bool {
    &&& 0 <= i < rows.len()
    &&& in_progress(s, rows[i])
    &&& forall|j: int| 0 <= j < i ==> !in_progress(s, #[trigger] rows[j])
}

/// The scope holds the row, it can be read, and its task is in progress.
pub open spec fn in_progress(s: Scope, row: RowView) -> bool {
    visible(s, row) && readable(row) && task_of(row).status == TaskStatus::InProgress
}

/// The scope holds the row, it can be read, and its task is pending and waits
/// on nothing.
pub open spec fn startable(s: Scope, row: RowView) -> bool {
    &&& visible(s, row)
    &&& readable(row)
    &&& task_of(row).status == TaskStatus::Pending
    &&& task_of(row).blocked_by.len() == 0
}

/// The row is the oldest one that can start, the first of them in case of a tie.
pub open spec fn oldest_startable(s: Scope, rows: Seq<RowView>, i: int) -> bool {
    &&& 0 <= i < rows.len()
    &&& startable(s, rows[i])
    &&& forall|j: int|
        0 <= j < rows.len() && startable(s, #[trigger] rows[j]) ==> rows[i].created_at
            < rows[j].created_at || (rows[i].created_at == rows[j].created_at && i <= j)
}

impl TaskBoard {
    /// Stores the result of a task of the board.
    pub fn set_task_result(
        &self,
        store: &mut TaskStore,
        team_id: &str,
        task_id: &str,
        result: &str,
    ) -> (r: Result<(), TeamError>)
        ensures
            final(store).events == old(store).events,
            result_stored(
                self.scope(team_id@),
                old(store).tasks(),
                task_id@,
                result@,
                final(store).tasks(),
                r,
            ),
            outside_kept(self.scope(team_id@), old(store).tasks(), final(store).tasks()),
            no_cycles(self.scope(team_id@), old(store).tasks()) ==> no_cycles(
                self.scope(team_id@),
                final(store).tasks(),
            ),
            ({
                let s = self.scope(team_id@);
                let rows = old(store).tasks();
                match found(s, rows, task_id@) {
                    Some(i) => r is Ok && final(store).tasks() == rows.update(
                        i,
                        RowView { result: Some(result@), ..rows[i] },
                    ),
                    None => (r matches Err(TeamError::TaskNotFound(x)) && x@ == task_id@)
                        && final(store).tasks() == rows,
                }
            }),
    {
        match self.find_task(&store.rows, team_id, task_id) {
            Some(i) => {
                store.rows[i].result = Some(result.to_owned());
                assert(store.tasks() =~= old(store).tasks().update(
                    i as int,
                    RowView { result: Some(result@), ..old(store).tasks()[i as int] },
                ));
                proof {
                    let s = self.scope(team_id@);
                    assert(graph_of(s, store.tasks()) =~= graph_of(s, old(store).tasks()));
                }
                Ok(())
            },
            None => Err(TeamError::TaskNotFound(task_id.to_owned())),
        }
    }

    /// Hands a ready task the results of its completed dependencies, once.
    /// A task that is not ready, has its context already or has nothing to
    /// receive is left as it is.
    pub fn materialize_input_context(
        &self,
        store: &mut TaskStore,
        team_id: &str,
        task_id: &str,
    ) -> (r: Result<Option<String>, TeamError>)
        ensures
            final(store).events == old(store).events,
            outside_kept(self.scope(team_id@), old(store).tasks(), final(store).tasks()),
            no_cycles(self.scope(team_id@), old(store).tasks()) ==> no_cycles(
                self.scope(team_id@),
                final(store).tasks(),
            ),
            ({
                let s = self.scope(team_id@);
                let rows = old(store).tasks();
                match found(s, rows, task_id@) {
                    Some(i) => (r matches Ok(context) && opt_text(context) == new_context(
                        s,
                        rows,
                        i,
                    )) && final(store).tasks() == materialized(s, rows, i),
                    None => (r matches Err(TeamError::TaskNotFound(x)) && x@ == task_id@)
                        && final(store).tasks() == rows,
                }
            }),
    {
        match self.find_task(&store.rows, team_id, task_id) {
            Some(i) => {
                proof {
                    lemma_materialized_graph(self.scope(team_id@), store.tasks(), i as int);
                }
                Ok(self.materialize_at(&mut store.rows, team_id, i))
            },
            None => Err(TeamError::TaskNotFound(task_id.to_owned())),
        }
    }

    /// The tasks of the board; a row that cannot be read is left out.
    pub fn list_tasks(&self, store: &TaskStore, team_id: &str) -> (r: Vec<TeamTask>)
        ensures
            task_views(r@) == listed_tasks(self.scope(team_id@), store.tasks()),
    {
        let ghost s = self.scope(team_id@);
        let ghost keep = |x: RowView| visible(s, x) && readable(x);
        let ghost all = store.tasks();
        let ghost f = |x: RowView| task_of(x);
        let mut r: Vec<TeamTask> = Vec::new();
        let mut i: usize = 0;
        proof {
            reveal(Seq::filter);
            assert(all.take(0).filter(keep) =~= Seq::<RowView>::empty());
            assert(task_views(r@) =~= all.take(0).filter(keep).map_values(f));
        }
        while i < store.rows.len()
            invariant
                i <= store.rows@.len(),
                s == self.scope(team_id@),
                all == store.tasks(),
                keep == (|x: RowView| visible(s, x) && readable(x)),
                f == (|x: RowView| task_of(x)),
                task_views(r@) == all.take(i as int).filter(keep).map_values(f),
            decreases store.rows@.len() - i,
        {
            let row = &store.rows[i];
            let ghost before = all.take(i as int).filter(keep);
            proof {
                reveal(Seq::filter);
                assert(all.take(i + 1).drop_last() =~= all.take(i as int));
                assert(all.take(i + 1).last() == row@);
                assert(before.push(row@).map_values(f) =~= before.map_values(f).push(f(row@)));
            }
            if self.sees(team_id, row) {
                if let Ok(task) = TeamTask::from_row(row) {
                    let ghost done = task_views(r@);
                    r.push(task);
                    assert(task_views(r@) =~= done.push(task@));
                }
            }
            i = i + 1;
        }
        assert(all.take(i as int) =~= all);
        r
    }

    /// The task of the board that is in progress, the first one if there are
    /// several.
    pub fn in_progress_task(&self, store: &TaskStore, team_id: &str) -> (r: Option<TeamTask>)
        ensures
            match r {
                Some(task) => exists|i: int| #[trigger]
                    first_in_progress(self.scope(team_id@), store.tasks(), i) && task@ == task_of(
                        store.tasks()[i],
                    ),
                None => forall|i: int|
                    0 <= i < store.tasks().len() ==> !in_progress(
                        self.scope(team_id@),
                        #[trigger] store.tasks()[i],
                    ),
            },
    {
        let ghost s = self.scope(team_id@);
        let mut i: usize = 0;
        while i < store.rows.len()
            invariant
                i <= store.rows@.len(),
                s == self.scope(team_id@),
                forall|j: int| 0 <= j < i ==> !in_progress(s, #[trigger] store.tasks()[j]),
            decreases store.rows@.len() - i,
        {
            assert(store.tasks()[i as int] == store.rows@[i as int]@);
            if self.sees(team_id, &store.rows[i]) {
                if let Ok(task) = TeamTask::from_row(&store.rows[i]) {
                    if task.status == TaskStatus::InProgress {
                        assert(first_in_progress(s, store.tasks(), i as int));
                        return Some(task);
                    }
                }
            }
            i = i + 1;
        }
        None
    }

    /// The task that is next in line: the oldest one that is pending and waits
    /// on nothing.
    pub fn next_sequential_ready(&self, store: &TaskStore, team_id: &str) -> (r: Option<TeamTask>)
        ensures
            match r {
                Some(task) => exists|i: int| #[trigger]
                    oldest_startable(self.scope(team_id@), store.tasks(), i) && task@ == task_of(
                        store.tasks()[i],
                    ),
                None => forall|i: int|
                    0 <= i < store.tasks().len() ==> !startable(
                        self.scope(team_id@),
                        #[trigger] store.tasks()[i],
                    ),
            },
    {
        let ghost s = self.scope(team_id@);
        let ghost mut at: int = 0;
        let mut best: Option<TeamTask> = None;
        let mut i: usize = 0;
        while i < store.rows.len()
            invariant
                i <= store.rows@.len(),
                s == self.scope(team_id@),
                match best {
                    Some(task) => 0 <= at < i && startable(s, store.tasks()[at]) && task@
                        == task_of(store.tasks()[at]) && forall|j: int|
                        0 <= j < i && startable(s, #[trigger] store.tasks()[j])
                            ==> store.tasks()[at].created_at < store.tasks()[j].created_at || (
                        store.tasks()[at].created_at == store.tasks()[j].created_at && at <= j),
                    None => forall|j: int|
                        0 <= j < i ==> !startable(s, #[trigger] store.tasks()[j]),
                },
            decreases store.rows@.len() - i,
        {
            assert(store.tasks()[i as int] == store.rows@[i as int]@);
            if self.sees(team_id, &store.rows[i]) {
                if let Ok(task) = TeamTask::from_row(&store.rows[i]) {
                    if task.status == TaskStatus::Pending && task.blocked_by.len() == 0 {
                        let better = match &best {
                            Some(b) => task.created_at < b.created_at,
                            None => true,
                        };
                        assert(startable(s, store.tasks()[i as int]));
                        if better {
                            best = Some(task);
                            proof {
                                at = i as int;
                            }
                        }
                    }
                }
            }
            i = i + 1;
        }
        assert(best is Some ==> oldest_startable(s, store.tasks(), at));
        best
    }
}

/// A change names what its fields hold, no more and no less; a field that is empty
/// names nothing.
pub proof fn law_change_names_its_fields(u: TaskUpdate)
    ensures
        u@.status == u.status,
        u@.description is Some <==> u.description is Some,
        u.description is Some ==> u@.description->0 == u.description->0@,
        u@.owner is Some <==> u.owner is Some,
        u.owner is Some ==> u@.owner->0 == u.owner->0@,
        u@.blocked_by is Some <==> u.blocked_by is Some,
        u.blocked_by is Some ==> u@.blocked_by->0.len() == u.blocked_by->0@.len() && forall|k: int|
            0 <= k < u.blocked_by->0@.len() ==> #[trigger] u@.blocked_by->0[k]
                == u.blocked_by->0@[k]@,
        u@.metadata is Some <==> u.metadata is Some,
        u.metadata is Some ==> u@.metadata->0 == value_json(u.metadata->0),
{
}

/// What a board announced is each of its announcements, in order, with the task and
/// whether it is new.
pub proof fn law_announcements_show_their_tasks(store: TaskStore, i: int)
    requires
        0 <= i < store.events@.len(),
    ensures
        store.announced().len() == store.events@.len(),
        store.announced()[i].task == store.events@[i].task@,
        store.announced()[i].created <==> store.events@[i].change == TeamTaskChange::Created,
        store.tasks() == row_views(store.rows@),
{
}

/// A context is written into one row at most, and into no other field of it.
pub proof fn law_context_goes_to_one_task(s: Scope, rows: Seq<RowView>, i: int)
    requires
        0 <= i < rows.len(),
    ensures
        ({
            let after = materialized(s, rows, i);
            &&& after.len() == rows.len()
            &&& forall|j: int| 0 <= j < rows.len() && j != i ==> #[trigger] after[j] == rows[j]
            &&& after[i] == (RowView { input_context: after[i].input_context, ..rows[i] })
            &&& rows[i].input_context is Some ==> after == rows && new_context(s, rows, i) is None
            &&& new_context(s, rows, i) is Some ==> after[i].input_context == new_context(
                s,
                rows,
                i,
            )
            &&& new_context(s, rows, i) is None ==> after == rows
        }),
{
}

} // verus!
