//! What the operations of the task board do to the stored rows.
use crate::graph::{acyclic, EdgesView};
use crate::input_context::context_of;
use crate::json::{ids_json, json_ids};
use crate::order::sorted;
use crate::task::{readable, task_of, RowView, TaskStatus, TaskView};
use crate::text::is_blank;
use vstd::prelude::*;

verus! {

/// The part of the store that a board works on: one engagement, or, for a
/// board without one, a whole team.
pub struct Scope {
    pub engagement: Option<Seq<char>>,
    pub team: Seq<char>,
}

/// The row lies in the scope.
pub open spec fn visible(s: Scope, row: RowView) -> bool {
    match s.engagement {
        Some(e) => row.engagement_id == Some(e),
        None => row.team_id == s.team,
    }
}

/// Where the task stands among the rows; `None` where the scope does not hold
/// it.
pub open spec fn found(s: Scope, rows: Seq<RowView>, id: Seq<char>) -> Option<int>
    decreases rows.len(),
{
    if rows.len() == 0 {
        None
    } else if found(s, rows.drop_last(), id) is Some {
        found(s, rows.drop_last(), id)
    } else if visible(s, rows.last()) && rows.last().id == id {
        Some(rows.len() - 1)
    } else {
        None
    }
}

/// No two rows share an id.
pub open spec fn unique_ids(rows: Seq<RowView>) -> bool {
    forall|i: int, j: int|
        0 <= i < j < rows.len() ==> (#[trigger] rows[i]).id != (#[trigger] rows[j]).id
}

pub open spec fn id_taken(rows: Seq<RowView>, id: Seq<char>) -> bool {
    exists|i: int| 0 <= i < rows.len() && (#[trigger] rows[i]).id == id
}

/// The ids that a stored list names; a list that cannot be read names none.
pub open spec fn listed(text: Seq<char>) -> Seq<Seq<char>> {
    match json_ids(text) {
        Some(ids) => ids,
        None => Seq::empty(),
    }
}

/// Which task of the scope waits on which.
pub open spec fn graph_of(s: Scope, rows: Seq<RowView>) -> Seq<EdgesView> {
    rows.map_values(|r: RowView| edges_of(s, r))
}

pub open spec fn edges_of(s: Scope, r: RowView) -> EdgesView {
    EdgesView { id: r.id, deps: if visible(s, r) { listed(r.blocked_by) } else { Seq::empty() } }
}

/// The first of the ids that the scope does not hold.
pub open spec fn first_missing(s: Scope, rows: Seq<RowView>, ids: Seq<Seq<char>>) -> Option<
    Seq<char>,
>
    decreases ids.len(),
{
    if ids.len() == 0 {
        None
    } else if found(s, rows, ids[0]) is None {
        Some(ids[0])
    } else {
        first_missing(s, rows, ids.drop_first())
    }
}

/// The row with `id` added to the tasks that it blocks. A list that cannot be
/// read is left as it is.
pub open spec fn blocking(row: RowView, id: Seq<char>) -> RowView {
    match json_ids(row.blocks) {
        Some(ids) => RowView { blocks: ids_json(ids.push(id)), ..row },
        None => row,
    }
}

/// The row without `id` among the tasks that it waits on. A list that cannot
/// be read is left as it is.
pub open spec fn released(row: RowView, id: Seq<char>) -> RowView {
    match json_ids(row.blocked_by) {
        Some(ids) => RowView {
            blocked_by: ids_json(ids.filter(|x: Seq<char>| x != id)),
            ..row
        },
        None => row,
    }
}

/// The rows after `id` was added to what each of `deps` blocks.
pub open spec fn linked(s: Scope, rows: Seq<RowView>, deps: Seq<Seq<char>>, id: Seq<char>) -> Seq<
    RowView,
>
    decreases deps.len(),
{
    if deps.len() == 0 {
        rows
    } else {
        let before = linked(s, rows, deps.drop_last(), id);
        match found(s, before, deps.last()) {
            Some(i) => before.update(i, blocking(before[i], id)),
            None => before,
        }
    }
}

/// The task is pending and waits on nothing.
pub open spec fn ready(row: RowView) -> bool {
    &&& row.status == TaskStatus::Pending.text()
    &&& json_ids(row.blocked_by) matches Some(ids) && ids.len() == 0
}

/// The row is a completed dependency of `id`, with a result to pass on.
pub open spec fn feeds(s: Scope, row: RowView, id: Seq<char>) -> bool {
    &&& visible(s, row)
    &&& listed(row.blocks).contains(id)
    &&& row.status == TaskStatus::Completed.text()
    &&& row.result matches Some(r) && !is_blank(r)
}

/// `a` was created before `b`.
pub open spec fn older() -> spec_fn(RowView, RowView) -> bool {
    |a: RowView, b: RowView| a.created_at < b.created_at
}

/// The rows that feed the task, from oldest to newest.
pub open spec fn feeding(s: Scope, rows: Seq<RowView>, id: Seq<char>) -> Seq<RowView> {
    sorted(older(), rows.filter(|r: RowView| feeds(s, r, id)))
}

/// The context that the task is given: none where it is not ready, has one
/// already, or has nothing to receive.
pub open spec fn new_context(s: Scope, rows: Seq<RowView>, i: int) -> Option<Seq<char>> {
    let row = rows[i];
    if ready(row) && row.input_context is None && feeding(s, rows, row.id).len() > 0 {
        Some(context_of(row, feeding(s, rows, row.id)))
    } else {
        None
    }
}

/// The rows after the task at `i` was given its context, if there is one.
pub open spec fn materialized(s: Scope, rows: Seq<RowView>, i: int) -> Seq<RowView> {
    match new_context(s, rows, i) {
        Some(c) => rows.update(i, RowView { input_context: Some(c), ..rows[i] }),
        None => rows,
    }
}

/// The rows after one task that waited on `completed` was released.
pub open spec fn unblocked_one(
    s: Scope,
    rows: Seq<RowView>,
    completed: Seq<char>,
    downstream: Seq<char>,
) -> Seq<RowView> {
    match found(s, rows, downstream) {
        Some(i) => materialized(s, rows.update(i, released(rows[i], completed)), i),
        None => rows,
    }
}

/// The rows after every one of `downstream` was released in turn.
pub open spec fn unblocked(
    s: Scope,
    rows: Seq<RowView>,
    completed: Seq<char>,
    downstream: Seq<Seq<char>>,
) -> Seq<RowView>
    decreases downstream.len(),
{
    if downstream.len() == 0 {
        rows
    } else {
        unblocked_one(
            s,
            unblocked(s, rows, completed, downstream.drop_last()),
            completed,
            downstream.last(),
        )
    }
}

/// What is announced: a task, and whether it is new.
pub struct ChangeView {
    pub task: TaskView,
    pub created: bool,
}

/// What is announced while the tasks are released: each one that the scope
/// holds and that can be read, as it stands after its turn.
pub open spec fn unblock_events(
    s: Scope,
    rows: Seq<RowView>,
    completed: Seq<char>,
    downstream: Seq<Seq<char>>,
) -> Seq<ChangeView>
    decreases downstream.len(),
{
    if downstream.len() == 0 {
        Seq::empty()
    } else {
        let before = unblock_events(s, rows, completed, downstream.drop_last());
        let now = unblocked(s, rows, completed, downstream);
        match found(s, now, downstream.last()) {
            Some(i) if readable(now[i]) => before.push(
                ChangeView { task: task_of(now[i]), created: false },
            ),
            _ => before,
        }
    }
}

/// What a change of a task asks for; what is `None` stays as it is.
pub struct UpdateView {
    pub status: Option<TaskStatus>,
    pub description: Option<Seq<char>>,
    pub owner: Option<Seq<char>>,
    pub blocked_by: Option<Seq<Seq<char>>>,
    pub metadata: Option<Seq<char>>,
}

/// The row with what the update names.
pub open spec fn changed(row: RowView, u: UpdateView, now: int) -> RowView {
    RowView {
        status: match u.status {
            Some(s) => s.text(),
            None => row.status,
        },
        description: if u.description is Some { u.description } else { row.description },
        owner: if u.owner is Some { u.owner } else { row.owner },
        blocked_by: match u.blocked_by {
            Some(ids) => ids_json(ids),
            None => row.blocked_by,
        },
        metadata: if u.metadata is Some { u.metadata } else { row.metadata },
        updated_at: now,
        ..row
    }
}

/// The rows after the task at `i` was changed; a task that is completed
/// releases what it blocks, where that can be read.
pub open spec fn updated(s: Scope, rows: Seq<RowView>, i: int, u: UpdateView, now: int) -> Seq<
    RowView,
> {
    let written = rows.update(i, changed(rows[i], u, now));
    if u.status == Some(TaskStatus::Completed) {
        unblocked(s, written, rows[i].id, listed(rows[i].blocks))
    } else {
        written
    }
}

/// The row of a new task.
pub open spec fn new_row(
    s: Scope,
    id: Seq<char>,
    now: int,
    subject: Seq<char>,
    description: Option<Seq<char>>,
    owner: Option<Seq<char>>,
    blocked_by: Seq<Seq<char>>,
    expected_output: Option<Seq<char>>,
    metadata: Option<Seq<char>>,
) -> RowView {
    RowView {
        id,
        team_id: s.team,
        subject,
        description,
        status: TaskStatus::Pending.text(),
        owner,
        blocked_by: ids_json(blocked_by),
        blocks: "[]"@,
        metadata,
        created_at: now,
        updated_at: now,
        engagement_id: s.engagement,
        expected_output,
        result: None,
        input_context: None,
    }
}

/// The rows that the scope holds and that can be read, as tasks.
pub open spec fn listed_tasks(s: Scope, rows: Seq<RowView>) -> Seq<TaskView> {
    rows.filter(|r: RowView| visible(s, r) && readable(r)).map_values(|r: RowView| task_of(r))
}

/// No task of the scope waits on itself, directly or through others.
pub open spec fn no_cycles(s: Scope, rows: Seq<RowView>) -> bool {
    acyclic(graph_of(s, rows))
}

/// The rows outside the scope are the same, at the same places.
pub open spec fn outside_kept(s: Scope, a: Seq<RowView>, b: Seq<RowView>) -> bool {
    &&& a.len() <= b.len()
    &&& forall|i: int|
        0 <= i < a.len() && !visible(s, #[trigger] a[i]) ==> b[i] == a[i]
    &&& forall|i: int| a.len() <= i < b.len() ==> visible(s, #[trigger] b[i])
}

} // verus!
