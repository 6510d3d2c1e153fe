//! What a caller of the task board can rely on: which fields a request sets, which
//! it leaves, whom a completed task releases and what it hands on.
use crate::board_laws::{
    law_create_stays_in_scope, law_created_task_is_found, law_unblocking_only_releases,
    law_update_stays_in_scope, law_updated_task_is_found, lemma_found, lemma_found_same_places,
    lemma_unblocked_kept, same_places,
};
use crate::board_spec::{
    changed, feeding, feeds, first_missing, found, graph_of, linked, listed, materialized,
    new_context, new_row, older, released, unblock_events, unblocked, visible, ChangeView, Scope,
    UpdateView,
};
use crate::error::TeamError;
use crate::graph::{first_cyclic, reaches, reaches_in, waits_on, EdgesView};
use crate::input_context::{
    context_of, dep_line, dep_lines, law_every_fitting_result_is_told, opening, upstream_text,
};
use crate::json::{flat, json_ids, json_view};
use crate::order::{
    is_order, law_sorted_in_order, law_sorted_keeps_values, lemma_filter_map, lemma_sorted_map,
};
use crate::search::lemma_filter_same;
use crate::task::{
    law_statuses_have_their_names, law_task_says_what_is_stored, readable, task_of, RowView,
    TaskStatus, TeamTask,
};
use crate::task_board::{
    create_effect, create_outcome, creates, lemma_filter_contains, opt_json, other_than,
    result_stored, update_effect, update_outcome, updates,
};
use crate::text::{byte_len, is_blank};
use vstd::prelude::*;

verus! {

/// The board holds the row: it belongs to the engagement of the board, or, where
/// the board has none, to the team.
pub open spec fn held(s: Scope, row: RowView) -> bool {
    match s.engagement {
        Some(engagement) => row.engagement_id == Some(engagement),
        None => row.team_id == s.team,
    }
}

/// The row at `at` is the task that the board knows under the id: the first one
/// that it holds.
pub open spec fn is_task(s: Scope, rows: Seq<RowView>, id: Seq<char>, at: int) -> bool {
    &&& 0 <= at < rows.len()
    &&& held(s, rows[at])
    &&& rows[at].id == id
    &&& forall|j: int| 0 <= j < at && held(s, #[trigger] rows[j]) ==> rows[j].id != id
}

proof fn lemma_found_is_task(s: Scope, rows: Seq<RowView>, id: Seq<char>)
    ensures
        match found(s, rows, id) {
            Some(at) => is_task(s, rows, id, at),
            None => forall|j: int|
                0 <= j < rows.len() && held(s, #[trigger] rows[j]) ==> rows[j].id != id,
        },
    decreases rows.len(),
{
    lemma_found(s, rows, id);
    if rows.len() > 0 {
        let front = rows.drop_last();
        lemma_found_is_task(s, front, id);
        if let Some(at) = found(s, rows, id) {
            assert forall|j: int| 0 <= j < at && held(s, #[trigger] rows[j]) implies rows[j].id
                != id by {
                assert(front[j] == rows[j]);
            }
        }
    }
    if found(s, rows, id) is None {
        assert forall|j: int| 0 <= j < rows.len() && held(s, #[trigger] rows[j]) implies rows[j].id
            != id by {
            assert(visible(s, rows[j]));
        }
    }
}

proof fn lemma_task_is_found(s: Scope, rows: Seq<RowView>, id: Seq<char>, at: int)
    requires
        is_task(s, rows, id, at),
    ensures
        found(s, rows, id) == Some(at),
{
    lemma_found_is_task(s, rows, id);
    match found(s, rows, id) {
        Some(k) => {
            if k < at {
                assert(rows[k].id != id);
            } else if at < k {
                assert(rows[at].id != id);
            }
        },
        None => {
            assert(rows[at].id != id);
        },
    }
}

proof fn lemma_linked_leaves(
    s: Scope,
    rows: Seq<RowView>,
    deps: Seq<Seq<char>>,
    id: Seq<char>,
    i: int,
)
    requires
        0 <= i < rows.len(),
        !deps.contains(rows[i].id),
    ensures
        linked(s, rows, deps, id).len() == rows.len(),
        linked(s, rows, deps, id)[i] == rows[i],
    decreases deps.len(),
{
    if deps.len() > 0 {
        let front = deps.drop_last();
        assert(!front.contains(rows[i].id)) by {
            if front.contains(rows[i].id) {
                let k = choose|k: int| 0 <= k < front.len() && front[k] == rows[i].id;
                assert(deps[k] == rows[i].id);
            }
        }
        lemma_linked_leaves(s, rows, front, id, i);
        lemma_found(s, linked(s, rows, front, id), deps.last());
        assert(deps[deps.len() - 1] != rows[i].id);
    }
}

/// A task that is created has, stored and returned, exactly the subject, the
/// description, the owner and the expected output of the request, whatever it waits
/// on; it is pending, waits on the dependencies of the request, blocks nothing, has
/// neither a result nor a context, and belongs to the team and the engagement of the
/// board. Every other row stays as it was, but for the lists of what its dependencies
/// block, to which the task is added.
pub proof fn law_created_task_is_as_requested(
    s: Scope,
    announces: bool,
    metadata: Option<serde_json::Value>,
    rows: Seq<RowView>,
    said: Seq<ChangeView>,
    id: Seq<char>,
    now: int,
    subject: Seq<char>,
    description: Option<Seq<char>>,
    owner: Option<Seq<char>>,
    deps: Seq<Seq<char>>,
    expected_output: Option<Seq<char>>,
    after: Seq<RowView>,
    told: Seq<ChangeView>,
    task: TeamTask,
)
    requires
        create_effect(
            s,
            announces,
            metadata,
            rows,
            said,
            new_row(
                s,
                id,
                now,
                subject,
                description,
                owner,
                deps,
                expected_output,
                opt_json(metadata),
            ),
            deps,
            after,
            told,
            Ok(task),
        ),
    ensures
        after.len() == rows.len() + 1,
        ({
            let stored = after.last();
            &&& stored.id == id
            &&& stored.team_id == s.team
            &&& stored.subject == subject
            &&& stored.description == description
            &&& stored.status == "pending"@
            &&& stored.owner == owner
            &&& json_ids(stored.blocked_by) == Some(deps)
            &&& json_ids(stored.blocks) == Some(Seq::<Seq<char>>::empty())
            &&& stored.created_at == now
            &&& stored.updated_at == now
            &&& stored.engagement_id == s.engagement
            &&& stored.expected_output == expected_output
            &&& stored.result is None
            &&& stored.input_context is None
            &&& stored.metadata == opt_json(metadata)
        }),
        ({
            let t = task@;
            &&& t.id == id
            &&& t.team_id == s.team
            &&& t.subject == subject
            &&& t.description == description
            &&& t.status == TaskStatus::Pending
            &&& t.owner == owner
            &&& t.blocked_by == deps
            &&& t.blocks.len() == 0
            &&& t.created_at == now
            &&& t.updated_at == now
            &&& t.engagement_id == s.engagement
            &&& t.expected_output == expected_output
            &&& t.result is None
            &&& t.input_context is None
            &&& metadata is None ==> t.metadata is None
            &&& metadata is Some && flat(metadata->0) ==> t.metadata == Some(
                json_view(metadata->0),
            )
        }),
        forall|i: int|
            0 <= i < rows.len() ==> {
                let before = #[trigger] rows[i];
                let now_row = after[i];
                &&& now_row == (RowView { blocks: now_row.blocks, ..before })
                &&& !deps.contains(before.id) || !held(s, before) ==> now_row == before
                &&& deps.contains(before.id) && is_task(s, rows, before.id, i) && json_ids(
                    before.blocks,
                ) is Some ==> {
                    &&& json_ids(now_row.blocks) is Some
                    &&& forall|x: Seq<char>|
                        json_ids(now_row.blocks)->0.contains(x) <==> #[trigger] json_ids(
                            before.blocks,
                        )->0.contains(x) || x == id
                }
            },
        told == if announces {
            said.push(ChangeView { task: task@, created: true })
        } else {
            said
        },
{
    let row = new_row(
        s,
        id,
        now,
        subject,
        description,
        owner,
        deps,
        expected_output,
        opt_json(metadata),
    );
    assert(create_outcome(s, rows, row, deps, Ok(task)));
    assert(creates(s, rows, id, deps));
    law_created_task_is_found(s, rows, row, deps);
    law_create_stays_in_scope(s, rows, row, deps);
    law_statuses_have_their_names(row.status);
    law_task_says_what_is_stored(row);
    crate::board_laws::lemma_linked_kept(s, rows.push(row), deps, id);
    assert forall|i: int| 0 <= i < rows.len() implies {
        let before = #[trigger] rows[i];
        let now_row = after[i];
        &&& now_row == (RowView { blocks: now_row.blocks, ..before })
        &&& !deps.contains(before.id) || !held(s, before) ==> now_row == before
        &&& deps.contains(before.id) && is_task(s, rows, before.id, i) && json_ids(
            before.blocks,
        ) is Some ==> {
            &&& json_ids(now_row.blocks) is Some
            &&& forall|x: Seq<char>|
                json_ids(now_row.blocks)->0.contains(x) <==> #[trigger] json_ids(
                    before.blocks,
                )->0.contains(x) || x == id
        }
    } by {
        let before = rows[i];
        assert(rows.push(row)[i] == before);
        if !deps.contains(before.id) {
            lemma_linked_leaves(s, rows.push(row), deps, id, i);
        }
        if deps.contains(before.id) && is_task(s, rows, before.id, i) && json_ids(
            before.blocks,
        ) is Some {
            lemma_task_is_found(s, rows, before.id, i);
            let k = choose|k: int| 0 <= k < deps.len() && deps[k] == before.id;
            assert(found(s, rows, deps[k]) == Some(i));
            let old_list = json_ids(before.blocks)->0;
            let new_list = json_ids(after[i].blocks)->0;
            assert(listed(after[i].blocks).contains(id));
            assert forall|x: Seq<char>|
                new_list.contains(x) <==> #[trigger] old_list.contains(x) || x == id by {
                if old_list.contains(x) {
                    let n = choose|n: int| 0 <= n < old_list.len() && old_list[n] == x;
                    assert(new_list[n] == x);
                }
                if new_list.contains(x) {
                    let n = choose|n: int| 0 <= n < new_list.len() && new_list[n] == x;
                    if n < old_list.len() {
                        assert(old_list[n] == x);
                    }
                }
            }
        }
    }
}

/// Where the board holds every dependency, the id is new, no task waits on it yet and
/// the metadata is written back as it was given, the task is created.
pub proof fn law_creation_is_owed(
    s: Scope,
    announces: bool,
    metadata: Option<serde_json::Value>,
    rows: Seq<RowView>,
    said: Seq<ChangeView>,
    id: Seq<char>,
    now: int,
    subject: Seq<char>,
    description: Option<Seq<char>>,
    owner: Option<Seq<char>>,
    deps: Seq<Seq<char>>,
    expected_output: Option<Seq<char>>,
    after: Seq<RowView>,
    told: Seq<ChangeView>,
    r: Result<TeamTask, TeamError>,
)
    requires
        create_effect(
            s,
            announces,
            metadata,
            rows,
            said,
            new_row(
                s,
                id,
                now,
                subject,
                description,
                owner,
                deps,
                expected_output,
                opt_json(metadata),
            ),
            deps,
            after,
            told,
            r,
        ),
        forall|k: int|
            0 <= k < deps.len() ==> exists|i: int|
                0 <= i < rows.len() && held(s, rows[i]) && (#[trigger] rows[i]).id
                    == #[trigger] deps[k],
        forall|i: int| 0 <= i < rows.len() ==> (#[trigger] rows[i]).id != id,
        forall|i: int|
            0 <= i < rows.len() && held(s, #[trigger] rows[i]) && json_ids(
                rows[i].blocked_by,
            ) is Some ==> !json_ids(rows[i].blocked_by)->0.contains(id),
        metadata is Some ==> flat(metadata->0),
    ensures
        r is Ok,
{
    assert forall|k: int| 0 <= k < deps.len() implies found(
        s,
        rows,
        #[trigger] deps[k],
    ) is Some by {
        lemma_found_is_task(s, rows, deps[k]);
        let i = choose|i: int|
            0 <= i < rows.len() && held(s, rows[i]) && (#[trigger] rows[i]).id == deps[k];
        assert(held(s, rows[i]));
    }
    lemma_none_missing(s, rows, deps);
    let g = graph_of(s, rows);
    assert forall|k: int| 0 <= k < deps.len() implies !reaches(g, #[trigger] deps[k], id) by {
        lemma_nobody_reaches(s, rows, deps[k], id);
        lemma_found_is_task(s, rows, deps[k]);
        assert(found(s, rows, deps[k]) is Some);
    }
    lemma_none_cyclic(g, id, deps);
    assert(creates(s, rows, id, deps));
}

proof fn lemma_none_missing(s: Scope, rows: Seq<RowView>, ids: Seq<Seq<char>>)
    requires
        forall|k: int| 0 <= k < ids.len() ==> found(s, rows, #[trigger] ids[k]) is Some,
    ensures
        first_missing(s, rows, ids) is None,
    decreases ids.len(),
{
    if ids.len() > 0 {
        let rest = ids.drop_first();
        assert forall|k: int| 0 <= k < rest.len() implies found(
            s,
            rows,
            #[trigger] rest[k],
        ) is Some by {
            assert(rest[k] == ids[k + 1]);
        }
        lemma_none_missing(s, rows, rest);
        assert(found(s, rows, ids[0]) is Some);
    }
}

proof fn lemma_none_cyclic(g: Seq<EdgesView>, task: Seq<char>, deps: Seq<Seq<char>>)
    requires
        forall|k: int| 0 <= k < deps.len() ==> !reaches(g, #[trigger] deps[k], task),
    ensures
        first_cyclic(g, task, deps) is None,
    decreases deps.len(),
{
    if deps.len() > 0 {
        let rest = deps.drop_first();
        assert forall|k: int| 0 <= k < rest.len() implies !reaches(
            g,
            #[trigger] rest[k],
            task,
        ) by {
            assert(rest[k] == deps[k + 1]);
        }
        lemma_none_cyclic(g, task, rest);
        assert(!reaches(g, deps[0], task));
    }
}

proof fn lemma_nobody_reaches(s: Scope, rows: Seq<RowView>, from: Seq<char>, id: Seq<char>)
    requires
        forall|i: int|
            0 <= i < rows.len() && held(s, #[trigger] rows[i]) && json_ids(
                rows[i].blocked_by,
            ) is Some ==> !json_ids(rows[i].blocked_by)->0.contains(id),
    ensures
        reaches(graph_of(s, rows), from, id) ==> from == id,
{
    let g = graph_of(s, rows);
    if reaches(g, from, id) {
        let n = choose|n: nat| reaches_in(g, from, id, n);
        lemma_nobody_reaches_in(s, rows, from, id, n);
    }
}

proof fn lemma_nobody_reaches_in(
    s: Scope,
    rows: Seq<RowView>,
    from: Seq<char>,
    id: Seq<char>,
    n: nat,
)
    requires
        forall|i: int|
            0 <= i < rows.len() && held(s, #[trigger] rows[i]) && json_ids(
                rows[i].blocked_by,
            ) is Some ==> !json_ids(rows[i].blocked_by)->0.contains(id),
        reaches_in(graph_of(s, rows), from, id, n),
    ensures
        from == id,
    decreases n,
{
    let g = graph_of(s, rows);
    if n > 0 {
        let m = choose|m: Seq<char>| #[trigger]
            waits_on(g, from, m) && reaches_in(g, m, id, (n - 1) as nat);
        lemma_nobody_reaches_in(s, rows, m, id, (n - 1) as nat);
        let i = choose|i: int|
            0 <= i < g.len() && (#[trigger] g[i]).id == from && g[i].deps.contains(m);
        assert(g[i] == crate::board_spec::edges_of(s, rows[i]));
        assert(held(s, rows[i]));
        assert(listed(rows[i].blocked_by).contains(id));
    }
}

/// A request for a new task that is refused stores nothing and announces nothing: a
/// dependency that the board does not hold is named, the first one; an id that is
/// taken is named; a dependency that waits on the task is named.
pub proof fn law_refused_creation_changes_nothing(
    s: Scope,
    announces: bool,
    metadata: Option<serde_json::Value>,
    rows: Seq<RowView>,
    said: Seq<ChangeView>,
    row: RowView,
    deps: Seq<Seq<char>>,
    after: Seq<RowView>,
    told: Seq<ChangeView>,
    r: Result<TeamTask, TeamError>,
)
    requires
        create_effect(s, announces, metadata, rows, said, row, deps, after, told, r),
    ensures
        r is Err ==> told == said,
        r is Err && !(r->Err_0 is Json) ==> after == rows,
        (r matches Err(TeamError::BlockedTaskNotFound(_))) <==> exists|k: int|
            0 <= k < deps.len() && forall|i: int|
                0 <= i < rows.len() && held(s, #[trigger] rows[i]) ==> rows[i].id
                    != #[trigger] deps[k],
        r matches Err(TeamError::BlockedTaskNotFound(x)) ==> exists|k: int|
            {
                &&& 0 <= k < deps.len()
                &&& #[trigger] deps[k] == x@
                &&& forall|i: int|
                    0 <= i < rows.len() && held(s, #[trigger] rows[i]) ==> rows[i].id != x@
                &&& forall|j: int|
                    0 <= j < k ==> exists|i: int|
                        0 <= i < rows.len() && held(s, #[trigger] rows[i]) && rows[i].id
                            == #[trigger] deps[j]
            },
        r matches Err(TeamError::TaskIdTaken(x)) ==> x@ == row.id && exists|i: int|
            0 <= i < rows.len() && (#[trigger] rows[i]).id == row.id,
        r is Ok ==> forall|i: int| 0 <= i < rows.len() ==> (#[trigger] rows[i]).id != row.id,
        r matches Err(TeamError::CyclicDependency { task_id, dependency }) ==> task_id@ == row.id
            && deps.contains(dependency@) && reaches(graph_of(s, rows), dependency@, row.id),
        r is Ok ==> forall|k: int|
            0 <= k < deps.len() ==> !reaches(graph_of(s, rows), #[trigger] deps[k], row.id),
        r matches Err(e) ==> e is BlockedTaskNotFound || e is TaskIdTaken || e is CyclicDependency
            || e is Json,
{
    lemma_first_missing_is_missing(s, rows, deps);
    lemma_first_missing_is_first(s, rows, deps);
    lemma_first_cyclic_reaches(graph_of(s, rows), row.id, deps);
}

proof fn lemma_first_missing_is_first(s: Scope, rows: Seq<RowView>, ids: Seq<Seq<char>>)
    ensures
        first_missing(s, rows, ids) matches Some(x) ==> exists|k: int|
            {
                &&& 0 <= k < ids.len()
                &&& #[trigger] ids[k] == x
                &&& forall|j: int|
                    0 <= j < k ==> exists|i: int|
                        0 <= i < rows.len() && held(s, #[trigger] rows[i]) && rows[i].id
                            == #[trigger] ids[j]
            },
    decreases ids.len(),
{
    if ids.len() > 0 {
        let rest = ids.drop_first();
        lemma_first_missing_is_first(s, rows, rest);
        lemma_found_is_task(s, rows, ids[0]);
        if let Some(x) = first_missing(s, rows, ids) {
            if let Some(at) = found(s, rows, ids[0]) {
                let k = choose|k: int|
                    {
                        &&& 0 <= k < rest.len()
                        &&& #[trigger] rest[k] == x
                        &&& forall|j: int|
                            0 <= j < k ==> exists|i: int|
                                0 <= i < rows.len() && held(s, #[trigger] rows[i]) && rows[i].id
                                    == #[trigger] rest[j]
                    };
                assert(ids[k + 1] == x);
                assert forall|j: int| 0 <= j < k + 1 implies exists|i: int|
                    0 <= i < rows.len() && held(s, #[trigger] rows[i]) && rows[i].id
                        == #[trigger] ids[j] by {
                    if j == 0 {
                        assert(held(s, rows[at]));
                    } else {
                        assert(rest[j - 1] == ids[j]);
                    }
                }
            } else {
                assert(ids[0] == x);
            }
        }
    }
}

proof fn lemma_first_missing_is_missing(s: Scope, rows: Seq<RowView>, ids: Seq<Seq<char>>)
    ensures
        first_missing(s, rows, ids) matches Some(x) ==> ids.contains(x) && forall|i: int|
            0 <= i < rows.len() && held(s, #[trigger] rows[i]) ==> rows[i].id != x,
        first_missing(s, rows, ids) is Some <==> exists|k: int|
            0 <= k < ids.len() && forall|i: int|
                0 <= i < rows.len() && held(s, #[trigger] rows[i]) ==> rows[i].id
                    != #[trigger] ids[k],
    decreases ids.len(),
{
    if ids.len() > 0 {
        let rest = ids.drop_first();
        lemma_first_missing_is_missing(s, rows, rest);
        lemma_found_is_task(s, rows, ids[0]);
        if let Some(x) = first_missing(s, rows, ids) {
            if found(s, rows, ids[0]) is Some {
                let k = choose|k: int| 0 <= k < rest.len() && rest[k] == x;
                assert(ids[k + 1] == x);
            }
            assert(ids.contains(x));
            let k = choose|k: int| 0 <= k < ids.len() && ids[k] == x;
            assert(forall|i: int|
                0 <= i < rows.len() && held(s, #[trigger] rows[i]) ==> rows[i].id != ids[k]);
        }
        if exists|k: int|
            0 <= k < ids.len() && forall|i: int|
                0 <= i < rows.len() && held(s, #[trigger] rows[i]) ==> rows[i].id
                    != #[trigger] ids[k] {
            let k = choose|k: int|
                0 <= k < ids.len() && forall|i: int|
                    0 <= i < rows.len() && held(s, #[trigger] rows[i]) ==> rows[i].id
                        != #[trigger] ids[k];
            if k > 0 {
                assert(rest[k - 1] == ids[k]);
            } else if let Some(at) = found(s, rows, ids[0]) {
                assert(held(s, rows[at]));
            }
        }
    }
}

proof fn lemma_first_cyclic_reaches(g: Seq<EdgesView>, task: Seq<char>, deps: Seq<Seq<char>>)
    ensures
        first_cyclic(g, task, deps) matches Some(x) ==> deps.contains(x) && reaches(g, x, task),
        first_cyclic(g, task, deps) is None ==> forall|k: int|
            0 <= k < deps.len() ==> !reaches(g, #[trigger] deps[k], task),
    decreases deps.len(),
{
    if first_cyclic(g, task, deps) is None && deps.len() > 0 {
        lemma_first_cyclic_reaches(g, task, deps.drop_first());
        assert forall|k: int| 0 <= k < deps.len() implies !reaches(
            g,
            #[trigger] deps[k],
            task,
        ) by {
            if k > 0 {
                assert(deps.drop_first()[k - 1] == deps[k]);
            }
        }
    }
    if deps.len() > 0 {
        let rest = deps.drop_first();
        lemma_first_cyclic_reaches(g, task, rest);
        if let Some(x) = first_cyclic(g, task, deps) {
            if reaches(g, deps[0], task) {
                assert(deps[0] == x);
            } else {
                let k = choose|k: int| 0 <= k < rest.len() && rest[k] == x;
                assert(deps[k + 1] == x);
            }
        }
    }
}

/// After an accepted update, every field that the update names has the value that it
/// names, whatever the row held before, stored and returned; every field that it does
/// not name is the one of before, except the time of the change. Only completing a task
/// that blocks itself could touch its own list and context.
pub proof fn law_update_writes_what_it_names(
    s: Scope,
    announces: bool,
    rows: Seq<RowView>,
    said: Seq<ChangeView>,
    id: Seq<char>,
    u: UpdateView,
    metadata: Option<serde_json::Value>,
    now: int,
    after: Seq<RowView>,
    told: Seq<ChangeView>,
    task: TeamTask,
    at: int,
)
    requires
        update_effect(s, announces, rows, said, id, u, metadata, now, after, told, Ok(task)),
        is_task(s, rows, id, at),
    ensures
        after.len() == rows.len(),
        ({
            let before = rows[at];
            let stored = after[at];
            let t = task@;
            let selfish = u.status == Some(TaskStatus::Completed) && json_ids(
                before.blocks,
            ) is Some && json_ids(before.blocks)->0.contains(id);
            &&& u.status == Some(TaskStatus::Pending) ==> stored.status == "pending"@
            &&& u.status == Some(TaskStatus::InProgress) ==> stored.status == "in_progress"@
            &&& u.status == Some(TaskStatus::Completed) ==> stored.status == "completed"@
            &&& u.status == Some(TaskStatus::Deleted) ==> stored.status == "deleted"@
            &&& u.status is None ==> stored.status == before.status
            &&& u.status is Some ==> t.status == u.status->0
            &&& u.description is Some ==> stored.description == u.description
            &&& u.description is None ==> stored.description == before.description
            &&& u.owner is Some ==> stored.owner == u.owner
            &&& u.owner is None ==> stored.owner == before.owner
            &&& u.metadata is Some ==> stored.metadata == u.metadata
            &&& u.metadata is None ==> stored.metadata == before.metadata
            &&& u.blocked_by is Some ==> json_ids(stored.blocked_by) == u.blocked_by
                && t.blocked_by == u.blocked_by->0
            &&& u.blocked_by is None && !selfish ==> stored.blocked_by == before.blocked_by
            &&& !selfish ==> stored.input_context == before.input_context
            &&& stored.updated_at == now
            &&& stored.id == id
            &&& stored.team_id == before.team_id
            &&& stored.subject == before.subject
            &&& stored.blocks == before.blocks
            &&& stored.created_at == before.created_at
            &&& stored.engagement_id == before.engagement_id
            &&& stored.expected_output == before.expected_output
            &&& stored.result == before.result
            &&& t.id == id
            &&& t.team_id == before.team_id
            &&& t.subject == before.subject
            &&& t.description == stored.description
            &&& t.owner == stored.owner
            &&& t.created_at == before.created_at
            &&& t.updated_at == now
            &&& t.engagement_id == before.engagement_id
            &&& t.expected_output == before.expected_output
            &&& t.result == before.result
            &&& t.input_context == stored.input_context
            &&& json_ids(stored.blocked_by) == Some(t.blocked_by)
            &&& json_ids(stored.blocks) == Some(t.blocks)
        }),
        u.status != Some(TaskStatus::Completed) ==> forall|j: int|
            0 <= j < rows.len() && j != at ==> #[trigger] after[j] == rows[j],
        announces ==> told.len() > said.len() && told.last() == (ChangeView {
            task: task@,
            created: false,
        }) && told.take(said.len() as int) == said,
        !announces ==> told == said,
        announces && u.status != Some(TaskStatus::Completed) ==> told.len() == said.len() + 1,
{
    lemma_task_is_found(s, rows, id, at);
    assert(update_outcome(s, rows, id, u, after, Ok(task)));
    assert(updates(s, rows, id, u));
    law_update_stays_in_scope(s, rows, id, u, now);
    law_updated_task_is_found(s, rows, id, u, now);
    law_statuses_have_their_names(after[at].status);
    law_task_says_what_is_stored(after[at]);
    let events = crate::task_board::update_events(s, rows, id, u, now, Ok(task));
    assert(events.last() == (ChangeView { task: task@, created: false }));
    if announces {
        assert(told.take(said.len() as int) =~= said);
        assert(told.last() == events.last());
    }
}

/// A request to change a task that the board does not hold, or whose new dependencies
/// wait on it, changes and announces nothing; any other one is written.
pub proof fn law_refused_update_changes_nothing(
    s: Scope,
    announces: bool,
    rows: Seq<RowView>,
    said: Seq<ChangeView>,
    id: Seq<char>,
    u: UpdateView,
    metadata: Option<serde_json::Value>,
    now: int,
    after: Seq<RowView>,
    told: Seq<ChangeView>,
    r: Result<TeamTask, TeamError>,
)
    requires
        update_effect(s, announces, rows, said, id, u, metadata, now, after, told, r),
    ensures
        (r matches Err(TeamError::TaskNotFound(_))) <==> forall|i: int|
            0 <= i < rows.len() && held(s, #[trigger] rows[i]) ==> rows[i].id != id,
        r matches Err(TeamError::TaskNotFound(x)) ==> x@ == id,
        r matches Err(TeamError::CyclicDependency { task_id, dependency }) ==> task_id@ == id
            && u.blocked_by is Some && u.blocked_by->0.contains(dependency@) && reaches(
            graph_of(s, rows),
            dependency@,
            id,
        ),
        r matches Err(e) ==> e is TaskNotFound || e is CyclicDependency || e is Json,
        r is Err && !(r->Err_0 is Json) ==> after == rows && told == said,
        r is Ok && u.blocked_by is Some ==> forall|k: int|
            0 <= k < u.blocked_by->0.len() ==> !reaches(
                graph_of(s, rows),
                #[trigger] u.blocked_by->0[k],
                id,
            ),
        (u.blocked_by is Some ==> forall|k: int|
            0 <= k < u.blocked_by->0.len() ==> !reaches(
                graph_of(s, rows),
                #[trigger] u.blocked_by->0[k],
                id,
            )) && (metadata is Some ==> flat(metadata->0)) && (forall|i: int|
            0 <= i < rows.len() ==> readable(#[trigger] rows[i])) && (exists|i: int|
            0 <= i < rows.len() && held(s, #[trigger] rows[i]) && rows[i].id == id) ==> r is Ok,
{
    lemma_found_is_task(s, rows, id);
    if let Some(deps) = u.blocked_by {
        lemma_first_cyclic_reaches(graph_of(s, rows), id, deps);
    }
    assert(said + Seq::<ChangeView>::empty() =~= said);
    if let Some(at) = found(s, rows, id) {
        assert(held(s, rows[at]) && rows[at].id == id);
        assert(readable(rows[at]) ==> json_ids(rows[at].blocks) is Some);
    }
}

/// The task stands in line to hand `id` a result: the board holds it, it is
/// completed, `id` is among what it blocks, and its result is not blank.
pub open spec fn hands_to(s: Scope, row: RowView, id: Seq<char>) -> bool {
    &&& held(s, row)
    &&& row.status == "completed"@
    &&& json_ids(row.blocks) is Some && json_ids(row.blocks)->0.contains(id)
    &&& row.result is Some && !is_blank(row.result->0)
}

/// The list is that of all tasks that have a result to hand to `id`, from the oldest
/// to the newest: none is missing, none is there twice, and no other one is there.
pub open spec fn all_that_hand_to(
    deps: Seq<RowView>,
    s: Scope,
    rows: Seq<RowView>,
    id: Seq<char>,
) -> bool {
    &&& forall|c: int|
        0 <= c < rows.len() && hands_to(s, #[trigger] rows[c], id) ==> deps.contains(rows[c])
    &&& forall|k: int|
        0 <= k < deps.len() ==> rows.contains(#[trigger] deps[k]) && hands_to(s, deps[k], id)
    &&& forall|k: int, l: int|
        0 <= k < l < deps.len() ==> (#[trigger] deps[k]).created_at <= (
        #[trigger] deps[l]).created_at
    &&& deps.len() == rows.filter(|r: RowView| hands_to(s, r, id)).len()
}

proof fn lemma_older_is_order()
    ensures
        is_order(older()),
{
}

/// What the board takes for the dependencies that feed a task is the list of all that
/// have a result to hand to it.
proof fn lemma_feeding_is_all(s: Scope, rows: Seq<RowView>, id: Seq<char>)
    ensures
        all_that_hand_to(feeding(s, rows, id), s, rows, id),
{
    let p = |r: RowView| feeds(s, r, id);
    let q = |r: RowView| hands_to(s, r, id);
    law_statuses_have_their_names(Seq::empty());
    assert forall|c: int| 0 <= c < rows.len() implies p(#[trigger] rows[c]) == q(rows[c]) by {
        if json_ids(rows[c].blocks) is None {
            assert(!listed(rows[c].blocks).contains(id));
        }
    }
    lemma_filter_same(rows, p, q);
    let deps = feeding(s, rows, id);
    let picked = rows.filter(p);
    law_sorted_keeps_values(older(), picked);
    lemma_older_is_order();
    law_sorted_in_order(older(), picked);
    assert forall|c: int| 0 <= c < rows.len() && hands_to(
        s,
        #[trigger] rows[c],
        id,
    ) implies deps.contains(rows[c]) by {
        assert(p(rows[c]));
        assert(rows.contains(rows[c]));
        lemma_filter_contains(rows, p, rows[c]);
        crate::activity::lemma_sorted_contains(older(), picked, rows[c]);
    }
    assert forall|k: int| 0 <= k < deps.len() implies rows.contains(#[trigger] deps[k])
        && hands_to(s, deps[k], id) by {
        assert(deps.contains(deps[k]));
        crate::activity::lemma_sorted_contains(older(), picked, deps[k]);
        lemma_filter_contains(rows, p, deps[k]);
        let c = choose|c: int| 0 <= c < rows.len() && rows[c] == deps[k];
        assert(p(rows[c]) == q(rows[c]));
    }
    assert forall|k: int, l: int| 0 <= k < l < deps.len() implies (#[trigger] deps[k]).created_at
        <= (#[trigger] deps[l]).created_at by {
        let f = older();
        assert(!f(deps[l], deps[k]));
    }
}

/// A task is handed its context where it is pending, waits on nothing, has none yet
/// and a completed task has a result for it: the brief of the task, and the results of
/// all of them, from the oldest to the newest. Otherwise it is left as it is.
pub proof fn law_ready_task_is_told_all_results(s: Scope, rows: Seq<RowView>, i: int)
    requires
        0 <= i < rows.len(),
    ensures
        ({
            let row = rows[i];
            let due = row.status == "pending"@ && json_ids(row.blocked_by) == Some(
                Seq::<Seq<char>>::empty(),
            ) && row.input_context is None && exists|c: int|
                0 <= c < rows.len() && hands_to(s, #[trigger] rows[c], row.id);
            &&& new_context(s, rows, i) is Some <==> due
            &&& due ==> exists|deps: Seq<RowView>|
                {
                    &&& #[trigger] all_that_hand_to(deps, s, rows, row.id)
                    &&& byte_len(opening(row.subject, row.description) + upstream_text(deps))
                        <= 8000 ==> new_context(s, rows, i) == Some(
                        opening(row.subject, row.description) + upstream_text(deps),
                    )
                    &&& new_context(s, rows, i) == Some(context_of(row, deps))
                }
            &&& materialized(s, rows, i).len() == rows.len()
            &&& forall|j: int|
                0 <= j < rows.len() && j != i ==> #[trigger] materialized(s, rows, i)[j] == rows[j]
            &&& due ==> materialized(s, rows, i)[i] == (RowView {
                input_context: new_context(s, rows, i),
                ..row
            })
            &&& !due ==> materialized(s, rows, i)[i] == row
        }),
{
    let row = rows[i];
    let deps = feeding(s, rows, row.id);
    law_statuses_have_their_names(row.status);
    lemma_feeding_is_all(s, rows, row.id);
    if json_ids(row.blocked_by) is Some && json_ids(row.blocked_by)->0.len() == 0 {
        assert(json_ids(row.blocked_by)->0 =~= Seq::<Seq<char>>::empty());
    }
    if exists|c: int| 0 <= c < rows.len() && hands_to(s, #[trigger] rows[c], row.id) {
        let c = choose|c: int| 0 <= c < rows.len() && hands_to(s, #[trigger] rows[c], row.id);
        assert(deps.contains(rows[c]));
        assert(deps.len() > 0);
    }
    if deps.len() > 0 {
        assert(rows.contains(deps[0]));
        let c = choose|c: int| 0 <= c < rows.len() && rows[c] == deps[0];
        assert(hands_to(s, rows[c], row.id));
    }
    let text = opening(row.subject, row.description) + upstream_text(deps);
    if byte_len(text) <= 8000 {
        law_every_fitting_result_is_told(row, deps);
    }
}

/// The row apart from what it waits on and what it was told.
spec fn lasting(row: RowView) -> RowView {
    RowView { blocked_by: Seq::empty(), input_context: None, ..row }
}

spec fn lasting_rows(rows: Seq<RowView>) -> Seq<RowView> {
    rows.map_values(|r: RowView| lasting(r))
}

proof fn lemma_feeding_lasts(s: Scope, rows: Seq<RowView>, id: Seq<char>)
    ensures
        lasting_rows(feeding(s, rows, id)) == feeding(s, lasting_rows(rows), id),
{
    let f = |r: RowView| lasting(r);
    let p = |r: RowView| feeds(s, r, id);
    let pf = |r: RowView| p(f(r));
    lemma_filter_map(rows, f, p);
    assert forall|c: int| 0 <= c < rows.len() implies p(#[trigger] rows[c]) == pf(rows[c]) by {}
    lemma_filter_same(rows, p, pf);
    lemma_sorted_map(older(), older(), f, rows.filter(p));
    assert(rows.filter(|x: RowView| p(f(x))) == rows.filter(pf));
}

proof fn lemma_context_of_lasting(a: RowView, x: Seq<RowView>, b: RowView, y: Seq<RowView>)
    requires
        lasting(a) == lasting(b),
        lasting_rows(x) == lasting_rows(y),
    ensures
        context_of(a, x) == context_of(b, y),
{
    assert(x.len() == lasting_rows(x).len());
    assert(y.len() == lasting_rows(y).len());
    assert(a.subject == lasting(a).subject && b.subject == lasting(b).subject);
    assert(a.description == lasting(a).description && b.description == lasting(b).description);
    assert(dep_lines(x) =~= dep_lines(y)) by {
        assert forall|k: int| 0 <= k < x.len() implies dep_lines(x)[k] == dep_lines(y)[k] by {
            assert(lasting_rows(x)[k] == lasting(x[k]));
            assert(lasting_rows(y)[k] == lasting(y[k]));
            assert(dep_line(x[k]) == dep_line(y[k]));
        }
    }
}

/// Whenever the release of tasks gives one its context, that is the one of the rows as
/// they were before.
proof fn lemma_unblocked_context(
    s: Scope,
    rows: Seq<RowView>,
    completed: Seq<char>,
    downstream: Seq<Seq<char>>,
    j: int,
)
    requires
        0 <= j < rows.len(),
        rows[j].input_context is None,
    ensures
        unblocked(s, rows, completed, downstream).len() == rows.len(),
        unblocked(s, rows, completed, downstream)[j].input_context matches Some(c) ==> c
            == context_of(rows[j], feeding(s, rows, rows[j].id)) && feeding(
            s,
            rows,
            rows[j].id,
        ).len() > 0,
    decreases downstream.len(),
{
    lemma_unblocked_kept(s, rows, completed, downstream);
    if downstream.len() > 0 {
        let front = downstream.drop_last();
        let before = unblocked(s, rows, completed, front);
        lemma_unblocked_context(s, rows, completed, front, j);
        lemma_unblocked_kept(s, rows, completed, front);
        lemma_found(s, before, downstream.last());
        if let Some(i) = found(s, before, downstream.last()) {
            let mid = before.update(i, released(before[i], completed));
            if i == j && mid[j].input_context is None && new_context(s, mid, j) is Some {
                let id = rows[j].id;
                assert(mid[j].id == id);
                assert(lasting_rows(mid) =~= lasting_rows(rows)) by {
                    assert forall|k: int| 0 <= k < rows.len() implies lasting(mid[k]) == lasting(
                        rows[k],
                    ) by {
                        law_unblocking_only_releases(s, rows, completed, front, k);
                    }
                }
                law_unblocking_only_releases(s, rows, completed, front, j);
                lemma_feeding_lasts(s, rows, id);
                lemma_feeding_lasts(s, mid, id);
                let x = feeding(s, mid, id);
                let y = feeding(s, rows, id);
                assert(lasting_rows(x).len() == x.len() && lasting_rows(y).len() == y.len());
                lemma_context_of_lasting(mid[j], x, rows[j], y);
            }
        }
    }
}

/// Completing a task releases every task that waits on it: it is taken out of what
/// they wait on, and nothing else is. Each one that is pending and waited on nothing
/// else, and to which any completed task has a result to hand, is told its brief and
/// the results of all of them, oldest first; no other task is told anything, and what
/// was told before stays.
pub proof fn law_completed_task_releases_and_tells(
    s: Scope,
    announces: bool,
    rows: Seq<RowView>,
    said: Seq<ChangeView>,
    id: Seq<char>,
    u: UpdateView,
    metadata: Option<serde_json::Value>,
    now: int,
    after: Seq<RowView>,
    told: Seq<ChangeView>,
    task: TeamTask,
    at: int,
    j: int,
)
    requires
        update_effect(s, announces, rows, said, id, u, metadata, now, after, told, Ok(task)),
        u.status == Some(TaskStatus::Completed),
        is_task(s, rows, id, at),
        0 <= j < rows.len(),
        is_task(s, rows, rows[j].id, j),
        j != at,
        json_ids(rows[at].blocks) is Some && json_ids(rows[at].blocks)->0.contains(rows[j].id),
    ensures
        after[j] == (RowView {
            blocked_by: after[j].blocked_by,
            input_context: after[j].input_context,
            ..rows[j]
        }),
        json_ids(rows[j].blocked_by) is Some ==> json_ids(after[j].blocked_by) is Some && json_ids(
            after[j].blocked_by,
        )->0 == json_ids(rows[j].blocked_by)->0.filter(other_than(id)),
        json_ids(rows[j].blocked_by) is None ==> after[j].blocked_by == rows[j].blocked_by,
        ({
            let row = rows[j];
            let written = rows.update(
                at,
                RowView { status: "completed"@, ..rows[at] },
            );
            let due = row.input_context is None && row.status == "pending"@ && json_ids(
                row.blocked_by,
            ) is Some && (forall|k: int|
                0 <= k < json_ids(row.blocked_by)->0.len() ==> #[trigger] json_ids(
                    row.blocked_by,
                )->0[k] == id) && (exists|c: int|
                0 <= c < rows.len() && hands_to(s, #[trigger] written[c], row.id));
            &&& !due ==> after[j].input_context == row.input_context
            &&& due ==> exists|deps: Seq<RowView>|
                {
                    &&& #[trigger] all_that_hand_to(deps, s, written, row.id)
                    &&& byte_len(opening(row.subject, row.description) + upstream_text(deps))
                        <= 8000 ==> after[j].input_context == Some(
                        opening(row.subject, row.description) + upstream_text(deps),
                    )
                    &&& after[j].input_context == Some(context_of(row, deps))
                }
        }),
{
    let row = rows[j];
    let named = listed(rows[at].blocks);
    lemma_task_is_found(s, rows, id, at);
    lemma_task_is_found(s, rows, row.id, j);
    assert(update_outcome(s, rows, id, u, after, Ok(task)));
    assert(updates(s, rows, id, u));
    let full = rows.update(at, changed(rows[at], u, now));
    let written = rows.update(at, RowView { status: "completed"@, ..rows[at] });
    assert(after == unblocked(s, full, rows[at].id, named));
    assert(full[j] == row);
    law_unblocking_only_releases(s, full, id, named, j);
    let n = choose|n: int| 0 <= n < named.len() && named[n] == row.id;
    assert(named[n] == row.id);
    law_update_stays_in_scope(s, rows, id, u, now);
    lemma_found_same_places(s, rows, after, row.id);
    lemma_found_same_places(s, rows, full, row.id);
    // What it waits on.
    assert(!listed(after[j].blocked_by).contains(id)) by {
        assert(found(s, after, named[n]) == Some(j));
    }
    assert(crate::task_board::list_kept(rows[j], after[j], id));
    if json_ids(row.blocked_by) is Some {
        let ids = json_ids(row.blocked_by)->0;
        let left = json_ids(after[j].blocked_by)->0;
        let keep = other_than(id);
        if left == ids {
            assert forall|k: int| 0 <= k < ids.len() implies keep(#[trigger] ids[k]) by {
                assert(ids.contains(ids[k]));
            }
            crate::order::lemma_filter_all(ids, keep);
        }
    }
    // What it is told.
    law_statuses_have_their_names(row.status);
    if row.input_context is Some {
        crate::board_laws::law_context_is_written_once(s, full, id, named, j);
    } else {
        lemma_unblocked_context(s, full, id, named, j);
        let deps_full = feeding(s, full, row.id);
        let deps = feeding(s, written, row.id);
        lemma_feeding_is_all(s, full, row.id);
        lemma_feeding_is_all(s, written, row.id);
        lemma_completed_feeds_alike(s, rows, at, u, now, row.id);
        assert(context_of(row, deps_full) == context_of(row, deps));
        let waits = crate::task_board::waits_only_on(row, id);
        if json_ids(row.blocked_by) is Some {
            let ids = json_ids(row.blocked_by)->0;
            assert((forall|k: int| 0 <= k < ids.len() ==> #[trigger] ids[k] == id) <==> (forall|
                x: Seq<char>,
            | #[trigger] ids.contains(x) ==> x == id)) by {
                if forall|k: int| 0 <= k < ids.len() ==> #[trigger] ids[k] == id {
                    assert forall|x: Seq<char>| #[trigger] ids.contains(x) implies x == id by {
                        let k = choose|k: int| 0 <= k < ids.len() && ids[k] == x;
                    }
                }
                if forall|x: Seq<char>| #[trigger] ids.contains(x) ==> x == id {
                    assert forall|k: int| 0 <= k < ids.len() implies #[trigger] ids[k] == id by {
                        assert(ids.contains(ids[k]));
                    }
                }
            }
        }
        if after[j].input_context is Some {
            assert(full[j].input_context is None);
            assert(waits);
            assert(deps.len() > 0);
            assert(written.contains(deps[0]));
            let c = choose|c: int| 0 <= c < written.len() && written[c] == deps[0];
            assert(hands_to(s, written[c], row.id));
        }
        if waits && exists|c: int|
            0 <= c < rows.len() && hands_to(s, #[trigger] written[c], row.id) {
            let c = choose|c: int|
                0 <= c < rows.len() && hands_to(s, #[trigger] written[c], row.id);
            assert(feeds(s, full[c], named[n]));
            assert(found(s, full, named[n]) == Some(j));
            assert(after[j].input_context is Some);
        }
        let text = opening(row.subject, row.description) + upstream_text(deps);
        if byte_len(text) <= 8000 {
            law_every_fitting_result_is_told(row, deps);
        }
    }
}

/// What a task hands on does not depend on the other fields that the request which
/// completes it sets.
proof fn lemma_completed_feeds_alike(
    s: Scope,
    rows: Seq<RowView>,
    at: int,
    u: UpdateView,
    now: int,
    id: Seq<char>,
)
    requires
        0 <= at < rows.len(),
        u.status == Some(TaskStatus::Completed),
    ensures
        ({
            let full = rows.update(at, changed(rows[at], u, now));
            let written = rows.update(at, RowView { status: "completed"@, ..rows[at] });
            &&& feeding(s, full, id).len() == feeding(s, written, id).len()
            &&& forall|task: RowView|
                context_of(task, feeding(s, full, id)) == #[trigger] context_of(
                    task,
                    feeding(s, written, id),
                )
        }),
{
    let full = rows.update(at, changed(rows[at], u, now));
    let written = rows.update(at, RowView { status: "completed"@, ..rows[at] });
    law_statuses_have_their_names(Seq::empty());
    let f = |r: RowView| essence(r);
    let p = |r: RowView| feeds(s, r, id);
    let pf = |r: RowView| p(f(r));
    assert forall|c: int| 0 <= c < rows.len() implies p(#[trigger] full[c]) == pf(full[c]) by {}
    assert forall|c: int| 0 <= c < rows.len() implies p(#[trigger] written[c]) == pf(
        written[c],
    ) by {}
    lemma_filter_same(full, p, pf);
    lemma_filter_same(written, p, pf);
    lemma_filter_map(full, f, p);
    lemma_filter_map(written, f, p);
    assert(full.filter(|x: RowView| p(f(x))) == full.filter(pf));
    assert(written.filter(|x: RowView| p(f(x))) == written.filter(pf));
    lemma_sorted_map(older(), older(), f, full.filter(p));
    lemma_sorted_map(older(), older(), f, written.filter(p));
    assert(full.map_values(f) =~= written.map_values(f));
    let x = feeding(s, full, id);
    let y = feeding(s, written, id);
    assert(x.map_values(f) == y.map_values(f));
    assert(x.len() == x.map_values(f).len() && y.len() == y.map_values(f).len());
    assert(dep_lines(x) =~= dep_lines(y)) by {
        assert forall|k: int| 0 <= k < x.len() implies dep_lines(x)[k] == dep_lines(y)[k] by {
            assert(x.map_values(f)[k] == essence(x[k]));
            assert(y.map_values(f)[k] == essence(y[k]));
            assert(dep_line(x[k]) == dep_line(y[k]));
        }
    }
}

/// The row apart from what a change may set beside the status.
spec fn essence(row: RowView) -> RowView {
    RowView {
        description: None,
        owner: None,
        blocked_by: Seq::empty(),
        metadata: None,
        updated_at: 0,
        input_context: None,
        ..row
    }
}

/// A task waits on what stands in its list, on whatever that waits on, and so on.
pub proof fn law_waiting_is_followed(
    s: Scope,
    rows: Seq<RowView>,
    i: int,
    next: Seq<char>,
    to: Seq<char>,
)
    requires
        0 <= i < rows.len(),
        held(s, rows[i]),
        json_ids(rows[i].blocked_by) is Some,
        json_ids(rows[i].blocked_by)->0.contains(next),
        next == to || reaches(graph_of(s, rows), next, to),
    ensures
        reaches(graph_of(s, rows), next, next),
        reaches(graph_of(s, rows), rows[i].id, to),
{
    let g = graph_of(s, rows);
    assert(reaches_in(g, next, next, 0));
    let n = choose|n: nat| reaches_in(g, next, to, n);
    assert(g[i] == crate::board_spec::edges_of(s, rows[i]));
    assert(waits_on(g, rows[i].id, next));
    assert(reaches_in(g, rows[i].id, to, n + 1));
}

/// Where a completed task blocked others, each of those that the board holds and can
/// read is announced as it is afterwards, as a change and not as a new task, and no task
/// is that it did not block. The task itself comes last.
pub proof fn law_released_tasks_are_announced(
    s: Scope,
    rows: Seq<RowView>,
    said: Seq<ChangeView>,
    id: Seq<char>,
    u: UpdateView,
    metadata: Option<serde_json::Value>,
    now: int,
    after: Seq<RowView>,
    told: Seq<ChangeView>,
    task: TeamTask,
    at: int,
    ids: Seq<Seq<char>>,
    k: int,
    j: int,
)
    requires
        update_effect(s, true, rows, said, id, u, metadata, now, after, told, Ok(task)),
        is_task(s, rows, id, at),
        u.status == Some(TaskStatus::Completed),
        json_ids(rows[at].blocks) == Some(ids),
        ids.no_duplicates(),
        0 <= k < ids.len(),
        is_task(s, rows, ids[k], j),
        readable(after[j]),
    ensures
        exists|n: int|
            {
                &&& said.len() <= n < told.len() - 1
                &&& (#[trigger] told[n]).task == task_of(after[j])
                &&& !told[n].created
            },
        forall|n: int|
            said.len() <= n < told.len() - 1 ==> !(#[trigger] told[n]).created && ids.contains(
                told[n].task.id,
            ),
        told.last().task.id == id,
{
    lemma_task_is_found(s, rows, id, at);
    assert(update_outcome(s, rows, id, u, after, Ok(task)));
    assert(updates(s, rows, id, u));
    law_updated_task_is_found(s, rows, id, u, now);
    law_task_says_what_is_stored(after[at]);
    let written = rows.update(at, changed(rows[at], u, now));
    let events = unblock_events(s, written, id, ids);
    let m = said.len() as int;
    assert(listed(rows[at].blocks) == ids);
    assert(crate::task_board::update_events(s, rows, id, u, now, Ok(task)) == events.push(
        ChangeView { task: task@, created: false },
    ));
    assert(told == said + events.push(ChangeView { task: task@, created: false }));
    assert(after == unblocked(s, written, id, ids));
    lemma_task_is_found(s, rows, ids[k], j);
    assert(same_places(rows, written));
    lemma_found_same_places(s, rows, written, ids[k]);
    lemma_announced(s, written, id, ids, k, j);
    let n = choose|n: int|
        0 <= n < events.len() && #[trigger] events[n] == (ChangeView {
            task: task_of(after[j]),
            created: false,
        });
    assert(told[m + n] == events[n]);
    lemma_announced_are_blocked(s, written, id, ids);
    assert forall|n: int| said.len() <= n < told.len() - 1 implies !(#[trigger] told[n]).created
        && ids.contains(told[n].task.id) by {
        assert(told[n] == events[n - m]);
    }
    assert(told.last() == (ChangeView { task: task@, created: false }));
}

proof fn lemma_announced(
    s: Scope,
    rows: Seq<RowView>,
    completed: Seq<char>,
    ids: Seq<Seq<char>>,
    k: int,
    j: int,
)
    requires
        ids.no_duplicates(),
        0 <= k < ids.len(),
        found(s, rows, ids[k]) == Some(j),
        readable(unblocked(s, rows, completed, ids)[j]),
    ensures
        exists|n: int|
            0 <= n < unblock_events(s, rows, completed, ids).len() && #[trigger] unblock_events(
                s,
                rows,
                completed,
                ids,
            )[n] == (ChangeView {
                task: task_of(unblocked(s, rows, completed, ids)[j]),
                created: false,
            }),
    decreases ids.len(),
{
    let front = ids.drop_last();
    let before = unblocked(s, rows, completed, front);
    let all = unblocked(s, rows, completed, ids);
    let events = unblock_events(s, rows, completed, ids);
    let earlier = unblock_events(s, rows, completed, front);
    lemma_found(s, rows, ids[k]);
    lemma_unblocked_kept(s, rows, completed, ids);
    lemma_unblocked_kept(s, rows, completed, front);
    lemma_found_same_places(s, rows, all, ids[k]);
    if k == ids.len() - 1 {
        assert(events[earlier.len() as int] == (ChangeView {
            task: task_of(all[j]),
            created: false,
        }));
    } else {
        lemma_found(s, before, ids.last());
        assert(before[j].id == rows[j].id);
        assert(ids[k] != ids[ids.len() - 1]);
        assert(all[j] == before[j]);
        assert(front.no_duplicates()) by {
            assert forall|a: int, b: int|
                0 <= a < front.len() && 0 <= b < front.len() && a != b implies front[a]
                != front[b] by {
                assert(ids[a] != ids[b]);
            }
        }
        assert(front[k] == ids[k]);
        lemma_announced(s, rows, completed, front, k, j);
        let n = choose|n: int|
            0 <= n < earlier.len() && #[trigger] earlier[n] == (ChangeView {
                task: task_of(before[j]),
                created: false,
            });
        assert(events[n] == earlier[n]);
    }
}

proof fn lemma_announced_are_blocked(
    s: Scope,
    rows: Seq<RowView>,
    completed: Seq<char>,
    ids: Seq<Seq<char>>,
)
    ensures
        forall|n: int|
            0 <= n < unblock_events(s, rows, completed, ids).len() ==> !(#[trigger] unblock_events(
                s,
                rows,
                completed,
                ids,
            )[n]).created && ids.contains(unblock_events(s, rows, completed, ids)[n].task.id),
    decreases ids.len(),
{
    if ids.len() > 0 {
        let front = ids.drop_last();
        let all = unblocked(s, rows, completed, ids);
        let events = unblock_events(s, rows, completed, ids);
        let earlier = unblock_events(s, rows, completed, front);
        lemma_announced_are_blocked(s, rows, completed, front);
        lemma_found(s, all, ids.last());
        assert forall|n: int| 0 <= n < events.len() implies !(#[trigger] events[n]).created
            && ids.contains(events[n].task.id) by {
            if n < earlier.len() {
                assert(events[n] == earlier[n]);
                let k = choose|k: int| 0 <= k < front.len() && front[k] == earlier[n].task.id;
                assert(ids[k] == events[n].task.id);
            } else {
                let i = found(s, all, ids.last())->0;
                law_task_says_what_is_stored(all[i]);
                assert(ids[ids.len() - 1] == events[n].task.id);
            }
        }
    }
}

/// A result is stored as it was given, with the task that it is for and nowhere else;
/// for a task that the board does not hold nothing is.
pub proof fn law_result_is_stored_as_given(
    s: Scope,
    rows: Seq<RowView>,
    id: Seq<char>,
    result: Seq<char>,
    after: Seq<RowView>,
    r: Result<(), TeamError>,
    at: int,
)
    requires
        result_stored(s, rows, id, result, after, r),
    ensures
        after.len() == rows.len(),
        is_task(s, rows, id, at) ==> r is Ok && after[at].result == Some(result) && after[at] == (
        RowView { result: after[at].result, ..rows[at] }) && forall|j: int|
            0 <= j < rows.len() && j != at ==> #[trigger] after[j] == rows[j],
        (forall|i: int| 0 <= i < rows.len() && held(s, #[trigger] rows[i]) ==> rows[i].id != id)
            ==> after == rows && (r matches Err(TeamError::TaskNotFound(x)) && x@ == id),
{
    lemma_found_is_task(s, rows, id);
    if is_task(s, rows, id, at) {
        lemma_task_is_found(s, rows, id, at);
    }
    if let Some(i) = found(s, rows, id) {
        assert(held(s, rows[i]));
    }
}

/// What is stored as the result of a task is handed on when the task is completed:
/// whoever waited on it alone is told a list of results with that one in it.
pub proof fn law_stored_result_is_handed_on(
    s: Scope,
    announces: bool,
    rows: Seq<RowView>,
    result: Seq<char>,
    stored: Seq<RowView>,
    said: Seq<ChangeView>,
    id: Seq<char>,
    u: UpdateView,
    metadata: Option<serde_json::Value>,
    now: int,
    after: Seq<RowView>,
    told: Seq<ChangeView>,
    task: TeamTask,
    at: int,
    j: int,
)
    requires
        result_stored(s, rows, id, result, stored, Ok(())),
        update_effect(s, announces, stored, said, id, u, metadata, now, after, told, Ok(task)),
        u.status == Some(TaskStatus::Completed),
        !is_blank(result),
        is_task(s, rows, id, at),
        0 <= j < rows.len(),
        j != at,
        is_task(s, rows, rows[j].id, j),
        json_ids(rows[at].blocks) is Some && json_ids(rows[at].blocks)->0.contains(rows[j].id),
        rows[j].input_context is None,
        rows[j].status == "pending"@,
        json_ids(rows[j].blocked_by) is Some,
        forall|k: int|
            0 <= k < json_ids(rows[j].blocked_by)->0.len() ==> #[trigger] json_ids(
                rows[j].blocked_by,
            )->0[k] == id,
    ensures
        exists|deps: Seq<RowView>|
            {
                &&& after[j].input_context == Some(#[trigger] context_of(rows[j], deps))
                &&& exists|n: int|
                    0 <= n < deps.len() && (#[trigger] deps[n]).id == id && deps[n].result == Some(
                        result,
                    )
            },
{
    law_result_is_stored_as_given(s, rows, id, result, stored, Ok(()), at);
    assert(is_task(s, stored, id, at)) by {
        assert forall|i: int| 0 <= i < at && held(s, #[trigger] stored[i]) implies stored[i].id
            != id by {
            assert(rows[i].id != id);
        }
    }
    assert(is_task(s, stored, stored[j].id, j)) by {
        assert forall|i: int| 0 <= i < j && held(s, #[trigger] stored[i]) implies stored[i].id
            != stored[j].id by {
            assert(held(s, rows[i]));
        }
    }
    law_completed_task_releases_and_tells(
        s,
        announces,
        stored,
        said,
        id,
        u,
        metadata,
        now,
        after,
        told,
        task,
        at,
        j,
    );
    let row = stored[j];
    let written = stored.update(at, RowView { status: "completed"@, ..stored[at] });
    assert(hands_to(s, written[at], row.id));
    let deps = choose|deps: Seq<RowView>|
        {
            &&& #[trigger] all_that_hand_to(deps, s, written, row.id)
            &&& byte_len(opening(row.subject, row.description) + upstream_text(deps)) <= 8000
                ==> after[j].input_context == Some(
                opening(row.subject, row.description) + upstream_text(deps),
            )
            &&& after[j].input_context == Some(context_of(row, deps))
        };
    assert(deps.contains(written[at]));
    let n = choose|n: int| 0 <= n < deps.len() && deps[n] == written[at];
    assert(deps[n].id == id);
    assert(after[j].input_context == Some(context_of(rows[j], deps)));
}

} // verus!
