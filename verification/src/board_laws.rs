//! What every operation of the task board keeps.
use crate::board_spec::{
    changed, edges_of, first_missing, found, graph_of, id_taken, linked, listed, materialized,
    no_cycles, outside_kept, released, unblocked, unblocked_one, unique_ids, updated, visible,
    Scope, UpdateView,
};
use crate::graph::{
    first_cyclic, law_fewer_edges_stay_acyclic, law_rewiring_stays_acyclic, rewired, waits_on,
};
use crate::task::RowView;
use vstd::prelude::*;

verus! {

/// What `found` gives lies in the scope and has the id; where it gives
/// nothing, no row of the scope has it.
pub proof fn lemma_found(s: Scope, rows: Seq<RowView>, id: Seq<char>)
    ensures
        match found(s, rows, id) {
            Some(i) => 0 <= i < rows.len() && rows[i].id == id && visible(s, rows[i]),
            None => forall|i: int|
                0 <= i < rows.len() && visible(s, #[trigger] rows[i]) ==> rows[i].id != id,
        },
    decreases rows.len(),
{
    if rows.len() > 0 {
        let front = rows.drop_last();
        lemma_found(s, front, id);
        if found(s, rows, id) is None {
            assert forall|i: int|
                0 <= i < rows.len() && visible(s, #[trigger] rows[i]) implies rows[i].id != id by {
                if i < front.len() {
                    assert(front[i] == rows[i]);
                }
            }
        }
    }
}

/// Row by row, the same task of the same team and engagement.
pub open spec fn same_places(a: Seq<RowView>, b: Seq<RowView>) -> bool {
    &&& a.len() == b.len()
    &&& forall|i: int|
        0 <= i < a.len() ==> (#[trigger] a[i]).id == b[i].id && a[i].team_id == b[i].team_id
            && a[i].engagement_id == b[i].engagement_id
}

pub proof fn lemma_found_same_places(s: Scope, a: Seq<RowView>, b: Seq<RowView>, id: Seq<char>)
    requires
        same_places(a, b),
    ensures
        found(s, a, id) == found(s, b, id),
    decreases a.len(),
{
    if a.len() > 0 {
        assert(same_places(a.drop_last(), b.drop_last())) by {
            assert forall|i: int| 0 <= i < a.len() - 1 implies (#[trigger] a.drop_last()[i]).id
                == b.drop_last()[i].id && a.drop_last()[i].team_id == b.drop_last()[i].team_id
                && a.drop_last()[i].engagement_id == b.drop_last()[i].engagement_id by {
                assert(a[i].id == b[i].id);
            }
        }
        lemma_found_same_places(s, a.drop_last(), b.drop_last(), id);
        assert(a[a.len() - 1].id == b[b.len() - 1].id);
    }
}

pub proof fn lemma_found_after_push(s: Scope, rows: Seq<RowView>, row: RowView, id: Seq<char>)
    requires
        row.id != id || found(s, rows, id) is Some,
    ensures
        found(s, rows.push(row), id) == found(s, rows, id),
{
    assert(rows.push(row).drop_last() =~= rows);
}

/// `b` keeps the places of `a`, and its rows outside the scope.
pub open spec fn kept(s: Scope, a: Seq<RowView>, b: Seq<RowView>) -> bool {
    &&& same_places(a, b)
    &&& forall|i: int| 0 <= i < a.len() && !visible(s, #[trigger] a[i]) ==> b[i] == a[i]
}

proof fn lemma_kept_trans(s: Scope, a: Seq<RowView>, b: Seq<RowView>, c: Seq<RowView>)
    requires
        kept(s, a, b),
        kept(s, b, c),
    ensures
        kept(s, a, c),
{
    assert forall|i: int| 0 <= i < a.len() implies (#[trigger] a[i]).id == c[i].id && a[i].team_id
        == c[i].team_id && a[i].engagement_id == c[i].engagement_id by {
        assert(a[i].id == b[i].id);
        assert(b[i].id == c[i].id);
    }
    assert forall|i: int| 0 <= i < a.len() && !visible(s, #[trigger] a[i]) implies c[i]
        == a[i] by {
        assert(b[i] == a[i]);
    }
}

pub proof fn lemma_kept_unique(s: Scope, a: Seq<RowView>, b: Seq<RowView>)
    requires
        kept(s, a, b),
    ensures
        unique_ids(a) ==> unique_ids(b),
        outside_kept(s, a, b),
{
    if unique_ids(a) {
        assert forall|i: int, j: int| 0 <= i < j < b.len() implies (#[trigger] b[i]).id
            != (#[trigger] b[j]).id by {
            assert(a[i].id == b[i].id && a[j].id == b[j].id);
        }
    }
}

pub proof fn lemma_linked_kept(s: Scope, rows: Seq<RowView>, deps: Seq<Seq<char>>, id: Seq<char>)
    ensures
        kept(s, rows, linked(s, rows, deps, id)),
        graph_of(s, linked(s, rows, deps, id)) == graph_of(s, rows),
    decreases deps.len(),
{
    if deps.len() > 0 {
        lemma_linked_kept(s, rows, deps.drop_last(), id);
        let before = linked(s, rows, deps.drop_last(), id);
        lemma_found(s, before, deps.last());
        let after = linked(s, rows, deps, id);
        assert(kept(s, before, after));
        lemma_kept_trans(s, rows, before, after);
        assert(graph_of(s, after) =~= graph_of(s, before));
    }
}

pub proof fn lemma_unblocked_one_kept(
    s: Scope,
    rows: Seq<RowView>,
    completed: Seq<char>,
    downstream: Seq<char>,
)
    ensures
        kept(s, rows, unblocked_one(s, rows, completed, downstream)),
{
    lemma_found(s, rows, downstream);
    if let Some(i) = found(s, rows, downstream) {
        let mid = rows.update(i, released(rows[i], completed));
        assert(kept(s, rows, mid));
        assert(kept(s, mid, materialized(s, mid, i)));
        lemma_kept_trans(s, rows, mid, materialized(s, mid, i));
    }
}

pub proof fn lemma_unblocked_kept(
    s: Scope,
    rows: Seq<RowView>,
    completed: Seq<char>,
    downstream: Seq<Seq<char>>,
)
    ensures
        kept(s, rows, unblocked(s, rows, completed, downstream)),
    decreases downstream.len(),
{
    if downstream.len() > 0 {
        lemma_unblocked_kept(s, rows, completed, downstream.drop_last());
        let before = unblocked(s, rows, completed, downstream.drop_last());
        lemma_unblocked_one_kept(s, before, completed, downstream.last());
        lemma_kept_trans(s, rows, before, unblocked(s, rows, completed, downstream));
    }
}

proof fn lemma_changed_kept(s: Scope, rows: Seq<RowView>, i: int, u: UpdateView, now: int)
    requires
        0 <= i < rows.len(),
        visible(s, rows[i]),
    ensures
        kept(s, rows, rows.update(i, changed(rows[i], u, now))),
{
}

/// An update touches no row outside the scope of the board and moves none.
pub proof fn law_update_stays_in_scope(
    s: Scope,
    rows: Seq<RowView>,
    id: Seq<char>,
    u: UpdateView,
    now: int,
)
    requires
        found(s, rows, id) is Some,
    ensures
        outside_kept(s, rows, updated(s, rows, found(s, rows, id)->0, u, now)),
        same_places(rows, updated(s, rows, found(s, rows, id)->0, u, now)),
        unique_ids(rows) ==> unique_ids(updated(s, rows, found(s, rows, id)->0, u, now)),
{
    let i = found(s, rows, id)->0;
    lemma_found(s, rows, id);
    lemma_changed_kept(s, rows, i, u, now);
    let written = rows.update(i, changed(rows[i], u, now));
    lemma_unblocked_kept(s, written, rows[i].id, listed(rows[i].blocks));
    lemma_kept_trans(s, rows, written, unblocked(s, written, rows[i].id, listed(rows[i].blocks)));
    lemma_kept_unique(s, rows, updated(s, rows, i, u, now));
    lemma_kept_unique(s, rows, written);
}

/// A new task touches no row outside the scope of the board; beside the lists
/// of what its dependencies block it changes none inside it.
pub proof fn law_create_stays_in_scope(
    s: Scope,
    rows: Seq<RowView>,
    row: RowView,
    deps: Seq<Seq<char>>,
)
    requires
        visible(s, row),
        !id_taken(rows, row.id),
    ensures
        outside_kept(s, rows, linked(s, rows.push(row), deps, row.id)),
        unique_ids(rows) ==> unique_ids(linked(s, rows.push(row), deps, row.id)),
        forall|i: int|
            0 <= i < rows.len() ==> (#[trigger] linked(s, rows.push(row), deps, row.id)[i])
                == (RowView {
                blocks: linked(s, rows.push(row), deps, row.id)[i].blocks,
                ..rows[i]
            }),
{
    let grown = rows.push(row);
    let after = linked(s, grown, deps, row.id);
    lemma_linked_kept(s, grown, deps, row.id);
    lemma_linked_only_blocks(s, grown, deps, row.id);
    assert forall|i: int| 0 <= i < rows.len() && !visible(s, #[trigger] rows[i]) implies after[i]
        == rows[i] by {
        assert(grown[i] == rows[i]);
    }
    assert forall|i: int| rows.len() <= i < after.len() implies visible(s, #[trigger] after[i]) by {
        assert(grown[i] == row);
    }
    assert forall|i: int| 0 <= i < rows.len() implies (#[trigger] after[i]) == (RowView {
        blocks: after[i].blocks,
        ..rows[i]
    }) by {
        assert(grown[i] == rows[i]);
    }
    if unique_ids(rows) {
        assert(unique_ids(grown)) by {
            assert forall|i: int, j: int| 0 <= i < j < grown.len() implies (#[trigger] grown[i]).id
                != (#[trigger] grown[j]).id by {
                assert(grown[i] == rows[i]);
                if j < rows.len() {
                    assert(grown[j] == rows[j]);
                }
            }
        }
        lemma_kept_unique(s, grown, after);
    }
}

proof fn lemma_linked_only_blocks(
    s: Scope,
    rows: Seq<RowView>,
    deps: Seq<Seq<char>>,
    id: Seq<char>,
)
    ensures
        linked(s, rows, deps, id).len() == rows.len(),
        forall|i: int|
            0 <= i < rows.len() ==> (#[trigger] linked(s, rows, deps, id)[i]) == (RowView {
                blocks: linked(s, rows, deps, id)[i].blocks,
                ..rows[i]
            }),
    decreases deps.len(),
{
    if deps.len() > 0 {
        let before = linked(s, rows, deps.drop_last(), id);
        lemma_linked_only_blocks(s, rows, deps.drop_last(), id);
        lemma_found(s, before, deps.last());
        let after = linked(s, rows, deps, id);
        assert forall|i: int| 0 <= i < rows.len() implies (#[trigger] after[i]) == (RowView {
            blocks: after[i].blocks,
            ..rows[i]
        }) by {
            assert(before[i] == (RowView { blocks: before[i].blocks, ..rows[i] }));
        }
    }
}

/// `waits_on` from a row: some row with that id names the other.
proof fn lemma_edge_row(s: Scope, rows: Seq<RowView>, a: Seq<char>, b: Seq<char>) -> (i: int)
    requires
        waits_on(graph_of(s, rows), a, b),
    ensures
        0 <= i < rows.len(),
        rows[i].id == a,
        visible(s, rows[i]),
        listed(rows[i].blocked_by).contains(b),
{
    let g = graph_of(s, rows);
    let i = choose|i: int| 0 <= i < g.len() && (#[trigger] g[i]).id == a && g[i].deps.contains(b);
    assert(g[i] == edges_of(s, rows[i]));
    i
}

proof fn lemma_row_edge(s: Scope, rows: Seq<RowView>, i: int, b: Seq<char>)
    requires
        0 <= i < rows.len(),
        visible(s, rows[i]),
        listed(rows[i].blocked_by).contains(b),
    ensures
        waits_on(graph_of(s, rows), rows[i].id, b),
{
    assert(graph_of(s, rows)[i] == edges_of(s, rows[i]));
}

/// A new task that nothing it waits on waits for closes no cycle.
pub proof fn lemma_create_no_cycles(
    s: Scope,
    rows: Seq<RowView>,
    row: RowView,
    deps: Seq<Seq<char>>,
)
    requires
        no_cycles(s, rows),
        visible(s, row),
        !id_taken(rows, row.id),
        listed(row.blocked_by) == deps,
        first_cyclic(graph_of(s, rows), row.id, deps) is None,
    ensures
        no_cycles(s, linked(s, rows.push(row), deps, row.id)),
{
    let g = graph_of(s, rows);
    let grown = rows.push(row);
    let h = graph_of(s, grown);
    lemma_linked_kept(s, grown, deps, row.id);
    assert(rewired(g, h, row.id, deps)) by {
        assert forall|a: Seq<char>, b: Seq<char>| #[trigger] waits_on(h, a, b) implies waits_on(
            g,
            a,
            b,
        ) || (a == row.id && deps.contains(b)) by {
            let i = lemma_edge_row(s, grown, a, b);
            if i < rows.len() {
                assert(grown[i] == rows[i]);
                assert(rows[i].id != row.id);
                lemma_row_edge(s, rows, i, b);
            }
        }
    }
    law_rewiring_stays_acyclic(g, h, row.id, deps);
}

/// A row that is rewritten in place closes no cycle where it names what it
/// named before, or what does not wait on it.
pub proof fn lemma_rewrite_no_cycles(s: Scope, rows: Seq<RowView>, i: int, row: RowView)
    requires
        no_cycles(s, rows),
        0 <= i < rows.len(),
        row.id == rows[i].id,
        visible(s, row),
        visible(s, rows[i]),
        listed(row.blocked_by) == listed(rows[i].blocked_by) || first_cyclic(
            graph_of(s, rows),
            row.id,
            listed(row.blocked_by),
        ) is None,
    ensures
        no_cycles(s, rows.update(i, row)),
{
    let g = graph_of(s, rows);
    let after = rows.update(i, row);
    let h = graph_of(s, after);
    if listed(row.blocked_by) == listed(rows[i].blocked_by) {
        assert(h =~= g);
    } else {
        let deps = listed(row.blocked_by);
        assert forall|a: Seq<char>, b: Seq<char>| #[trigger] waits_on(h, a, b) implies waits_on(
            g,
            a,
            b,
        ) || (a == row.id && deps.contains(b)) by {
            let k = lemma_edge_row(s, after, a, b);
            if k != i {
                assert(after[k] == rows[k]);
                lemma_row_edge(s, rows, k, b);
            }
        }
        law_rewiring_stays_acyclic(g, h, row.id, deps);
    }
}

/// A row that waits on no more than before closes no cycle.
pub proof fn lemma_fewer_no_cycles(s: Scope, rows: Seq<RowView>, i: int, row: RowView)
    requires
        no_cycles(s, rows),
        0 <= i < rows.len(),
        row.id == rows[i].id,
        visible(s, rows[i]),
        forall|x: Seq<char>| #[trigger]
            listed(row.blocked_by).contains(x) ==> listed(rows[i].blocked_by).contains(x),
    ensures
        no_cycles(s, rows.update(i, row)),
{
    let g = graph_of(s, rows);
    let after = rows.update(i, row);
    let h = graph_of(s, after);
    assert forall|a: Seq<char>, b: Seq<char>| #[trigger] waits_on(h, a, b) implies waits_on(
        g,
        a,
        b,
    ) by {
        let k = lemma_edge_row(s, after, a, b);
        if k == i {
            lemma_row_edge(s, rows, i, b);
        } else {
            assert(after[k] == rows[k]);
            lemma_row_edge(s, rows, k, b);
        }
    }
    law_fewer_edges_stay_acyclic(g, h);
}

pub proof fn lemma_materialized_graph(s: Scope, rows: Seq<RowView>, i: int)
    requires
        0 <= i < rows.len(),
    ensures
        graph_of(s, materialized(s, rows, i)) == graph_of(s, rows),
{
    assert(graph_of(s, materialized(s, rows, i)) =~= graph_of(s, rows));
}

/// A context, once there, is never overwritten by what a completed task sets
/// off.
pub proof fn law_context_is_written_once(
    s: Scope,
    rows: Seq<RowView>,
    completed: Seq<char>,
    downstream: Seq<Seq<char>>,
    i: int,
)
    requires
        0 <= i < rows.len(),
        rows[i].input_context is Some,
    ensures
        unblocked(s, rows, completed, downstream)[i].input_context == rows[i].input_context,
    decreases downstream.len(),
{
    if downstream.len() > 0 {
        let before = unblocked(s, rows, completed, downstream.drop_last());
        law_context_is_written_once(s, rows, completed, downstream.drop_last(), i);
        lemma_unblocked_kept(s, rows, completed, downstream.drop_last());
        lemma_found(s, before, downstream.last());
    }
}

/// A completed task releases others and hands them a context; it changes
/// nothing else of them.
pub proof fn law_unblocking_only_releases(
    s: Scope,
    rows: Seq<RowView>,
    completed: Seq<char>,
    downstream: Seq<Seq<char>>,
    i: int,
)
    requires
        0 <= i < rows.len(),
    ensures
        unblocked(s, rows, completed, downstream)[i] == (RowView {
            blocked_by: unblocked(s, rows, completed, downstream)[i].blocked_by,
            input_context: unblocked(s, rows, completed, downstream)[i].input_context,
            ..rows[i]
        }),
        !downstream.contains(rows[i].id) ==> unblocked(s, rows, completed, downstream)[i]
            == rows[i],
    decreases downstream.len(),
{
    if downstream.len() > 0 {
        let front = downstream.drop_last();
        let before = unblocked(s, rows, completed, front);
        law_unblocking_only_releases(s, rows, completed, front, i);
        lemma_unblocked_kept(s, rows, completed, front);
        lemma_found(s, before, downstream.last());
        if !downstream.contains(rows[i].id) {
            assert(!front.contains(rows[i].id)) by {
                if front.contains(rows[i].id) {
                    let k = choose|k: int| 0 <= k < front.len() && front[k] == rows[i].id;
                    assert(downstream[k] == rows[i].id);
                }
            }
            assert(downstream[downstream.len() - 1] != rows[i].id);
        }
    }
}

proof fn lemma_linked_keeps_new(
    s: Scope,
    rows: Seq<RowView>,
    row: RowView,
    deps: Seq<Seq<char>>,
)
    requires
        !deps.contains(row.id),
    ensures
        linked(s, rows.push(row), deps, row.id).len() == rows.len() + 1,
        linked(s, rows.push(row), deps, row.id).last() == row,
    decreases deps.len(),
{
    if deps.len() > 0 {
        let front = deps.drop_last();
        assert(!front.contains(row.id)) by {
            if front.contains(row.id) {
                let k = choose|k: int| 0 <= k < front.len() && front[k] == row.id;
                assert(deps[k] == row.id);
            }
        }
        lemma_linked_keeps_new(s, rows, row, front);
        let before = linked(s, rows.push(row), front, row.id);
        lemma_found(s, before, deps.last());
        assert(deps[deps.len() - 1] != row.id);
    }
}

/// A task that was created is found, as it was written.
pub proof fn law_created_task_is_found(
    s: Scope,
    rows: Seq<RowView>,
    row: RowView,
    deps: Seq<Seq<char>>,
)
    requires
        visible(s, row),
        !id_taken(rows, row.id),
        first_missing(s, rows, deps) is None,
    ensures
        ({
            let after = linked(s, rows.push(row), deps, row.id);
            found(s, after, row.id) == Some(rows.len() as int) && after[rows.len() as int] == row
        }),
{
    assert(!deps.contains(row.id)) by {
        if deps.contains(row.id) {
            let k = choose|k: int| 0 <= k < deps.len() && deps[k] == row.id;
            lemma_first_missing_none(s, rows, deps, k);
            lemma_found(s, rows, row.id);
            assert(rows[found(s, rows, row.id)->0].id == row.id);
        }
    }
    let grown = rows.push(row);
    let after = linked(s, grown, deps, row.id);
    lemma_linked_keeps_new(s, rows, row, deps);
    lemma_linked_kept(s, grown, deps, row.id);
    lemma_found_same_places(s, grown, after, row.id);
    assert(grown.drop_last() =~= rows);
    lemma_found(s, rows, row.id);
    if let Some(i) = found(s, rows, row.id) {
        assert(rows[i].id == row.id);
    }
}

pub proof fn lemma_first_missing_none(
    s: Scope,
    rows: Seq<RowView>,
    ids: Seq<Seq<char>>,
    k: int,
)
    requires
        first_missing(s, rows, ids) is None,
        0 <= k < ids.len(),
    ensures
        found(s, rows, ids[k]) is Some,
    decreases ids.len(),
{
    if k > 0 {
        assert(ids.drop_first()[k - 1] == ids[k]);
        lemma_first_missing_none(s, rows, ids.drop_first(), k - 1);
    }
}

/// A task that was changed is found at its place, with all that the change
/// names except, where it was completed and blocked itself, what it waits on.
pub proof fn law_updated_task_is_found(
    s: Scope,
    rows: Seq<RowView>,
    id: Seq<char>,
    u: UpdateView,
    now: int,
)
    requires
        found(s, rows, id) is Some,
    ensures
        ({
            let i = found(s, rows, id)->0;
            let after = updated(s, rows, i, u, now);
            &&& found(s, after, id) == Some(i)
            &&& after[i] == (RowView {
                blocked_by: after[i].blocked_by,
                input_context: after[i].input_context,
                ..changed(rows[i], u, now)
            })
            &&& !listed(rows[i].blocks).contains(id) ==> after[i] == changed(rows[i], u, now)
        }),
{
    let i = found(s, rows, id)->0;
    lemma_found(s, rows, id);
    law_update_stays_in_scope(s, rows, id, u, now);
    lemma_found_same_places(s, rows, updated(s, rows, i, u, now), id);
    let written = rows.update(i, changed(rows[i], u, now));
    law_unblocking_only_releases(s, written, rows[i].id, listed(rows[i].blocks), i);
}

} // verus!
