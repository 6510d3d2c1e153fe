//! The graph of which task waits on which, and its freedom from cycles.
use crate::text::{same_text, slices, texts};
use vstd::prelude::*;

verus! {

/// A task and the ids of the tasks that it waits on.
#[derive(Debug)]
pub struct TaskEdges {
    pub id: String,
    pub deps: Vec<String>,
}

pub struct EdgesView {
    pub id: Seq<char>,
    pub deps: Seq<Seq<char>>,
}

impl View for TaskEdges {
    type V = EdgesView;

    open spec fn view(&self) -> EdgesView {
        EdgesView { id: self.id@, deps: texts(self.deps@) }
    }
}

pub open spec fn edge_views(v: Seq<TaskEdges>) -> Seq<EdgesView> {
    v.map_values(|e: TaskEdges| e@)
}

/// `a` waits on `b`.
pub open spec fn waits_on(g: Seq<EdgesView>, a: Seq<char>, b: Seq<char>) -> bool {
    exists|i: int| 0 <= i < g.len() && (#[trigger] g[i]).id == a && g[i].deps.contains(b)
}

/// `a` waits on `b` through `n` steps.
pub open spec fn reaches_in(g: Seq<EdgesView>, a: Seq<char>, b: Seq<char>, n: nat) -> bool
    decreases n,
{
    if n == 0 {
        a == b
    } else {
        exists|m: Seq<char>| #[trigger] waits_on(g, a, m) && reaches_in(g, m, b, (n - 1) as nat)
    }
}

/// `b` is `a`, or `a` waits on it directly or through other tasks.
pub open spec fn reaches(g: Seq<EdgesView>, a: Seq<char>, b: Seq<char>) -> bool {
    exists|n: nat| reaches_in(g, a, b, n)
}

/// No task waits on itself, directly or through others.
pub open spec fn acyclic(g: Seq<EdgesView>) -> bool {
    forall|a: Seq<char>, n: nat| n > 0 ==> !#[trigger] reaches_in(g, a, a, n)
}

/// The first of `deps` that would close a cycle if `task` waited on it.
pub open spec fn first_cyclic(
    g: Seq<EdgesView>,
    task: Seq<char>,
    deps: Seq<Seq<char>>,
) -> Option<Seq<char>>
    decreases deps.len(),
{
    if deps.len() == 0 {
        None
    } else if reaches(g, deps[0], task) {
        Some(deps[0])
    } else {
        first_cyclic(g, task, deps.drop_first())
    }
}

proof fn lemma_step(g: Seq<EdgesView>, a: Seq<char>, b: Seq<char>, c: Seq<char>, n: nat)
    requires
        reaches_in(g, a, b, n),
        waits_on(g, b, c),
    ensures
        reaches_in(g, a, c, n + 1),
    decreases n,
{
    if n == 0 {
        assert(reaches_in(g, c, c, 0));
        assert(waits_on(g, a, c) && reaches_in(g, c, c, (n + 1 - 1) as nat));
    } else {
        let m = choose|m: Seq<char>| #[trigger]
            waits_on(g, a, m) && reaches_in(g, m, b, (n - 1) as nat);
        lemma_step(g, m, b, c, (n - 1) as nat);
        assert(waits_on(g, a, m) && reaches_in(g, m, c, (n + 1 - 1) as nat));
    }
}

proof fn lemma_compose(
    g: Seq<EdgesView>,
    a: Seq<char>,
    b: Seq<char>,
    c: Seq<char>,
    m: nat,
    n: nat,
)
    requires
        reaches_in(g, a, b, m),
        reaches_in(g, b, c, n),
    ensures
        reaches_in(g, a, c, m + n),
    decreases m,
{
    if m > 0 {
        let x = choose|x: Seq<char>| #[trigger]
            waits_on(g, a, x) && reaches_in(g, x, b, (m - 1) as nat);
        lemma_compose(g, x, b, c, (m - 1) as nat, n);
        assert(waits_on(g, a, x) && reaches_in(g, x, c, (m + n - 1) as nat));
    }
}

proof fn lemma_closed_holds_reachable(
    g: Seq<EdgesView>,
    seen: Seq<Seq<char>>,
    a: Seq<char>,
    b: Seq<char>,
    n: nat,
)
    requires
        reaches_in(g, a, b, n),
        seen.contains(a),
        forall|x: Seq<char>, y: Seq<char>| #![trigger waits_on(g, x, y)]
            seen.contains(x) && waits_on(g, x, y) ==> seen.contains(y),
    ensures
        seen.contains(b),
    decreases n,
{
    if n > 0 {
        let m = choose|m: Seq<char>| #[trigger]
            waits_on(g, a, m) && reaches_in(g, m, b, (n - 1) as nat);
        lemma_closed_holds_reachable(g, seen, m, b, (n - 1) as nat);
    }
}

/// The start and every id that some task waits on: nothing else can be reached.
spec fn universe(g: Seq<EdgesView>, start: Seq<char>) -> Seq<Seq<char>>
    decreases g.len(),
{
    if g.len() == 0 {
        seq![start]
    } else {
        universe(g.drop_last(), start) + g.last().deps
    }
}

proof fn lemma_universe(g: Seq<EdgesView>, start: Seq<char>, i: int, x: Seq<char>)
    requires
        0 <= i < g.len(),
        g[i].deps.contains(x),
    ensures
        universe(g, start).contains(x),
    decreases g.len(),
{
    let u = universe(g.drop_last(), start);
    let d = g.last().deps;
    if i < g.len() - 1 {
        lemma_universe(g.drop_last(), start, i, x);
        let k = choose|k: int| 0 <= k < u.len() && u[k] == x;
        assert((u + d)[k] == x);
    } else {
        let k = choose|k: int| 0 <= k < d.len() && d[k] == x;
        assert((u + d)[u.len() + k] == x);
    }
}

proof fn lemma_universe_start(g: Seq<EdgesView>, start: Seq<char>)
    ensures
        universe(g, start).contains(start),
    decreases g.len(),
{
    if g.len() == 0 {
        assert(universe(g, start)[0] == start);
    } else {
        lemma_universe_start(g.drop_last(), start);
        let u = universe(g.drop_last(), start);
        let k = choose|k: int| 0 <= k < u.len() && u[k] == start;
        assert((u + g.last().deps)[k] == start);
    }
}

proof fn lemma_distinct_bounded(seen: Seq<Seq<char>>, all: Seq<Seq<char>>)
    requires
        seen.no_duplicates(),
        forall|k: int| 0 <= k < seen.len() ==> all.contains(#[trigger] seen[k]),
    ensures
        seen.len() <= all.len(),
{
    seen.unique_seq_to_set();
    all.lemma_cardinality_of_set();
    assert forall|x: Seq<char>| seen.to_set().contains(x) implies all.to_set().contains(x) by {
        let k = choose|k: int| 0 <= k < seen.len() && seen[k] == x;
        assert(all.contains(seen[k]));
    }
    vstd::set_lib::lemma_len_subset(seen.to_set(), all.to_set());
}

fn contains_text(v: &Vec<&str>, s: &str) -> (r: bool)
    ensures
        r == slices(v@).contains(s@),
{
    let ghost all = slices(v@);
    let mut i: usize = 0;
    while i < v.len()
        invariant
            i <= v@.len(),
            all == slices(v@),
            forall|k: int| 0 <= k < i ==> #[trigger] all[k] != s@,
        decreases v@.len() - i,
    {
        if same_text(v[i], s) {
            assert(all[i as int] == s@);
            return true;
        }
        i = i + 1;
    }
    false
}

/// What the search for reachable ids knows: `seen` holds only ids that `from`
/// reaches, each once, `from` among them, and it holds whatever the first
/// `done` of them wait on.
spec fn search_state(
    g: Seq<EdgesView>,
    from: Seq<char>,
    seen: Seq<Seq<char>>,
    done: int,
) -> bool {
    &&& 0 <= done <= seen.len()
    &&& seen.contains(from)
    &&& seen.no_duplicates()
    &&& forall|k: int| 0 <= k < seen.len() ==> universe(g, from).contains(#[trigger] seen[k])
    &&& forall|k: int| 0 <= k < seen.len() ==> reaches(g, from, #[trigger] seen[k])
    &&& forall|k: int, y: Seq<char>|
        0 <= k < done && #[trigger] waits_on(g, seen[k], y) ==> seen.contains(y)
}

/// Adds `id` to what was seen, unless it was.
fn note_seen<'a>(seen: &mut Vec<&'a str>, id: &'a str)
    ensures
        slices(final(seen)@) == if slices(old(seen)@).contains(id@) {
            slices(old(seen)@)
        } else {
            slices(old(seen)@).push(id@)
        },
{
    if !contains_text(seen, id) {
        seen.push(id);
        assert(slices(seen@) =~= slices(old(seen)@).push(id@));
    }
}

proof fn lemma_note_keeps_state(
    g: Seq<EdgesView>,
    from: Seq<char>,
    seen: Seq<Seq<char>>,
    done: int,
    at: int,
    id: Seq<char>,
)
    requires
        search_state(g, from, seen, done),
        0 <= at < seen.len(),
        waits_on(g, seen[at], id),
        !seen.contains(id),
    ensures
        search_state(g, from, seen.push(id), done),
{
    let next = seen.push(id);
    assert(next[seen.len() as int] == id);
    assert forall|x: Seq<char>| seen.contains(x) implies #[trigger] next.contains(x) by {
        let k = choose|k: int| 0 <= k < seen.len() && seen[k] == x;
        assert(next[k] == x);
    }
    let n = choose|n: nat| reaches_in(g, from, seen[at], n);
    assert(reaches(g, from, seen[at]));
    lemma_step(g, from, seen[at], id, n);
    assert(reaches(g, from, id));
    let i = choose|i: int| 0 <= i < g.len() && (#[trigger] g[i]).id == seen[at] && g[i].deps.contains(id);
    lemma_universe(g, from, i, id);
    assert forall|k: int| 0 <= k < next.len() implies universe(g, from).contains(
        #[trigger] next[k],
    ) && reaches(g, from, next[k]) by {
        if k < seen.len() {
            assert(next[k] == seen[k]);
        }
    }
    assert forall|k: int, y: Seq<char>| 0 <= k < done && #[trigger] waits_on(
        g,
        next[k],
        y,
    ) implies next.contains(y) by {
        assert(next[k] == seen[k]);
        assert(seen.contains(y));
    }
}

/// Whether `from` is `to`, or waits on it directly or through other tasks.
pub fn reaches_task(g: &[TaskEdges], from: &str, to: &str) -> (r: bool)
    ensures
        r == reaches(edge_views(g@), from@, to@),
{
    let ghost gv = edge_views(g@);
    let ghost all = universe(gv, from@);
    let mut seen: Vec<&str> = Vec::new();
    seen.push(from);
    proof {
        assert(slices(seen@) =~= seq![from@]);
        assert(slices(seen@)[0] == from@);
        lemma_universe_start(gv, from@);
        assert(reaches_in(gv, from@, from@, 0));
    }
    let mut i: usize = 0;
    while i < seen.len()
        invariant
            gv == edge_views(g@),
            all == universe(gv, from@),
            search_state(gv, from@, slices(seen@), i as int),
        decreases all.len() - i,
    {
        proof {
            lemma_distinct_bounded(slices(seen@), all);
        }
        let cur = seen[i];
        let mut j: usize = 0;
        while j < g.len()
            invariant
                gv == edge_views(g@),
                i < seen@.len(),
                j <= g@.len(),
                slices(seen@)[i as int] == cur@,
                search_state(gv, from@, slices(seen@), i as int),
                forall|m: int, y: Seq<char>|
                    0 <= m < j && gv[m].id == cur@ && #[trigger] gv[m].deps.contains(y)
                        ==> slices(seen@).contains(y),
            decreases g@.len() - j,
        {
            let node = &g[j];
            assert(gv[j as int] == node@);
            if same_text(node.id.as_str(), cur) {
                let mut k: usize = 0;
                while k < node.deps.len()
                    invariant
                        gv == edge_views(g@),
                        i < seen@.len(),
                        j < g@.len(),
                        k <= node.deps@.len(),
                        gv[j as int] == node@,
                        node.id@ == cur@,
                        slices(seen@)[i as int] == cur@,
                        search_state(gv, from@, slices(seen@), i as int),
                        forall|m: int, y: Seq<char>|
                            0 <= m < j && gv[m].id == cur@ && #[trigger] gv[m].deps.contains(y)
                                ==> slices(seen@).contains(y),
                        forall|m: int|
                            0 <= m < k ==> slices(seen@).contains(#[trigger] node@.deps[m]),
                    decreases node.deps@.len() - k,
                {
                    let dep = node.deps[k].as_str();
                    let ghost before = slices(seen@);
                    proof {
                        assert(node@.deps[k as int] == dep@);
                        assert(waits_on(gv, cur@, dep@)) by {
                            assert(gv[j as int].id == cur@ && gv[j as int].deps.contains(dep@));
                        }
                    }
                    note_seen(&mut seen, dep);
                    proof {
                        let after = slices(seen@);
                        if !before.contains(dep@) {
                            lemma_note_keeps_state(
                                gv,
                                from@,
                                before,
                                i as int,
                                i as int,
                                dep@,
                            );
                            assert(after[before.len() as int] == dep@);
                        }
                        assert forall|x: Seq<char>| before.contains(
                            x,
                        ) implies #[trigger] after.contains(x) by {
                            let p = choose|p: int| 0 <= p < before.len() && before[p] == x;
                            assert(after[p] == x);
                        }
                        assert(after.contains(dep@));
                    }
                    k = k + 1;
                }
                proof {
                    assert forall|y: Seq<char>| gv[j as int].deps.contains(y) implies slices(
                        seen@,
                    ).contains(y) by {
                        let m = choose|m: int|
                            0 <= m < node@.deps.len() && node@.deps[m] == y;
                        assert(slices(seen@).contains(node@.deps[m]));
                    }
                }
            }
            j = j + 1;
        }
        proof {
            let s = slices(seen@);
            assert forall|k: int, y: Seq<char>| 0 <= k < i + 1 && #[trigger] waits_on(
                gv,
                s[k],
                y,
            ) implies s.contains(y) by {
                if k == i {
                    let m = choose|m: int|
                        0 <= m < gv.len() && (#[trigger] gv[m]).id == s[k]
                            && gv[m].deps.contains(y);
                    assert(gv[m].deps.contains(y));
                }
            }
        }
        i = i + 1;
    }
    let r = contains_text(&seen, to);
    proof {
        let s = slices(seen@);
        if r {
            let k = choose|k: int| 0 <= k < s.len() && s[k] == to@;
            assert(reaches(gv, from@, s[k]));
        }
        if reaches(gv, from@, to@) {
            let n = choose|n: nat| reaches_in(gv, from@, to@, n);
            assert forall|x: Seq<char>, y: Seq<char>|
                #![trigger waits_on(gv, x, y)]
                s.contains(x) && waits_on(gv, x, y) implies s.contains(y) by {
                let k = choose|k: int| 0 <= k < s.len() && s[k] == x;
                assert(waits_on(gv, s[k], y));
            }
            lemma_closed_holds_reachable(gv, s, from@, to@, n);
        }
    }
    r
}

/// The first of `deps` that would close a cycle if `task` waited on it.
pub fn find_cyclic(g: &[TaskEdges], task: &str, deps: &[String]) -> (r: Option<String>)
    ensures
        match r {
            Some(d) => first_cyclic(edge_views(g@), task@, texts(deps@)) == Some(d@),
            None => first_cyclic(edge_views(g@), task@, texts(deps@)) is None,
        },
{
    let ghost all = texts(deps@);
    let ghost gv = edge_views(g@);
    let mut i: usize = 0;
    assert(all.skip(0) =~= all);
    while i < deps.len()
        invariant
            i <= deps@.len(),
            all == texts(deps@),
            gv == edge_views(g@),
            first_cyclic(gv, task@, all) == first_cyclic(gv, task@, all.skip(i as int)),
        decreases deps@.len() - i,
    {
        assert(all.skip(i as int)[0] == deps@[i as int]@);
        if reaches_task(g, deps[i].as_str(), task) {
            return Some(deps[i].clone());
        }
        assert(all.skip(i as int).drop_first() =~= all.skip(i + 1));
        i = i + 1;
    }
    None
}

pub proof fn lemma_first_cyclic_none(
    g: Seq<EdgesView>,
    task: Seq<char>,
    deps: Seq<Seq<char>>,
    d: Seq<char>,
)
    requires
        first_cyclic(g, task, deps) is None,
        deps.contains(d),
    ensures
        !reaches(g, d, task),
    decreases deps.len(),
{
    let k = choose|k: int| 0 <= k < deps.len() && deps[k] == d;
    if k > 0 {
        let rest = deps.drop_first();
        assert(rest[k - 1] == d);
        lemma_first_cyclic_none(g, task, rest, d);
    }
}

/// `h` has no edges but those of `g`, and those from `task` to `deps`.
pub open spec fn rewired(
    g: Seq<EdgesView>,
    h: Seq<EdgesView>,
    task: Seq<char>,
    deps: Seq<Seq<char>>,
) -> bool {
    forall|a: Seq<char>, b: Seq<char>| #[trigger]
        waits_on(h, a, b) ==> waits_on(g, a, b) || (a == task && deps.contains(b))
}

proof fn lemma_rewired_path(
    g: Seq<EdgesView>,
    h: Seq<EdgesView>,
    task: Seq<char>,
    deps: Seq<Seq<char>>,
    a: Seq<char>,
    n: nat,
)
    requires
        rewired(g, h, task, deps),
        reaches_in(h, a, task, n),
    ensures
        reaches(g, a, task),
    decreases n,
{
    if a == task {
        assert(reaches_in(g, a, task, 0));
    } else {
        let m = choose|m: Seq<char>| #[trigger]
            waits_on(h, a, m) && reaches_in(h, m, task, (n - 1) as nat);
        lemma_rewired_path(g, h, task, deps, m, (n - 1) as nat);
        let k = choose|k: nat| reaches_in(g, m, task, k);
        assert(waits_on(g, a, m) && reaches_in(g, m, task, (k + 1 - 1) as nat));
        assert(reaches_in(g, a, task, k + 1));
    }
}

proof fn lemma_rewired_cases(
    g: Seq<EdgesView>,
    h: Seq<EdgesView>,
    task: Seq<char>,
    deps: Seq<Seq<char>>,
    a: Seq<char>,
    b: Seq<char>,
    n: nat,
) -> (i: nat)
    requires
        rewired(g, h, task, deps),
        reaches_in(h, a, b, n),
    ensures
        reaches_in(g, a, b, n) || (i < n && reaches_in(h, a, task, i) && reaches_in(
            h,
            task,
            b,
            (n - i) as nat,
        )),
    decreases n,
{
    if n == 0 {
        0
    } else if a == task {
        assert(reaches_in(h, a, task, 0));
        0
    } else {
        let m = choose|m: Seq<char>| #[trigger]
            waits_on(h, a, m) && reaches_in(h, m, b, (n - 1) as nat);
        let i = lemma_rewired_cases(g, h, task, deps, m, b, (n - 1) as nat);
        if reaches_in(g, m, b, (n - 1) as nat) {
            assert(waits_on(g, a, m));
        } else {
            assert(waits_on(h, a, m) && reaches_in(h, m, task, (i + 1 - 1) as nat));
        }
        i + 1
    }
}

/// A task may wait on anything that does not wait on it: giving it such
/// dependencies, beside its old ones or in their place, closes no cycle.
pub proof fn law_rewiring_stays_acyclic(
    g: Seq<EdgesView>,
    h: Seq<EdgesView>,
    task: Seq<char>,
    deps: Seq<Seq<char>>,
)
    requires
        acyclic(g),
        rewired(g, h, task, deps),
        first_cyclic(g, task, deps) is None,
    ensures
        acyclic(h),
{
    assert forall|a: Seq<char>, n: nat| n > 0 implies !#[trigger] reaches_in(h, a, a, n) by {
        if reaches_in(h, a, a, n) {
            let i = lemma_rewired_cases(g, h, task, deps, a, a, n);
            if !reaches_in(g, a, a, n) {
                lemma_compose(h, task, a, task, (n - i) as nat, i);
                assert(reaches_in(h, task, task, n));
                let m = choose|m: Seq<char>| #[trigger]
                    waits_on(h, task, m) && reaches_in(h, m, task, (n - 1) as nat);
                lemma_rewired_path(g, h, task, deps, m, (n - 1) as nat);
                if deps.contains(m) {
                    lemma_first_cyclic_none(g, task, deps, m);
                } else {
                    let k = choose|k: nat| reaches_in(g, m, task, k);
                    assert(waits_on(g, task, m) && reaches_in(g, m, task, (k + 1 - 1) as nat));
                    assert(reaches_in(g, task, task, k + 1));
                }
            }
        }
    }
}

/// Conversely, a dependency that waits on the task does close a cycle.
pub proof fn law_cyclic_dependency_closes_a_cycle(
    g: Seq<EdgesView>,
    h: Seq<EdgesView>,
    task: Seq<char>,
    dep: Seq<char>,
)
    requires
        reaches(g, dep, task),
        waits_on(h, task, dep),
        forall|a: Seq<char>, b: Seq<char>| a != task && #[trigger] waits_on(g, a, b) ==> waits_on(
            h,
            a,
            b,
        ),
    ensures
        !acyclic(h),
{
    let n = choose|n: nat| reaches_in(g, dep, task, n);
    let k = lemma_path_without_task(g, h, dep, task, n);
    assert(waits_on(h, task, dep) && reaches_in(h, dep, task, (k + 1 - 1) as nat));
    assert(reaches_in(h, task, task, k + 1));
}

proof fn lemma_path_without_task(
    g: Seq<EdgesView>,
    h: Seq<EdgesView>,
    a: Seq<char>,
    task: Seq<char>,
    n: nat,
) -> (k: nat)
    requires
        reaches_in(g, a, task, n),
        forall|a: Seq<char>, b: Seq<char>| a != task && #[trigger] waits_on(g, a, b) ==> waits_on(
            h,
            a,
            b,
        ),
    ensures
        reaches_in(h, a, task, k),
    decreases n,
{
    if a == task {
        0
    } else {
        let m = choose|m: Seq<char>| #[trigger]
            waits_on(g, a, m) && reaches_in(g, m, task, (n - 1) as nat);
        let k = lemma_path_without_task(g, h, m, task, (n - 1) as nat);
        assert(waits_on(h, a, m) && reaches_in(h, m, task, (k + 1 - 1) as nat));
        k + 1
    }
}

/// Taking dependencies away closes no cycle.
pub proof fn law_fewer_edges_stay_acyclic(g: Seq<EdgesView>, h: Seq<EdgesView>)
    requires
        acyclic(g),
        forall|a: Seq<char>, b: Seq<char>| #[trigger] waits_on(h, a, b) ==> waits_on(g, a, b),
    ensures
        acyclic(h),
{
    assert forall|a: Seq<char>, n: nat| n > 0 implies !#[trigger] reaches_in(h, a, a, n) by {
        if reaches_in(h, a, a, n) {
            lemma_fewer_edges_path(g, h, a, a, n);
        }
    }
}

proof fn lemma_fewer_edges_path(
    g: Seq<EdgesView>,
    h: Seq<EdgesView>,
    a: Seq<char>,
    b: Seq<char>,
    n: nat,
)
    requires
        forall|a: Seq<char>, b: Seq<char>| #[trigger] waits_on(h, a, b) ==> waits_on(g, a, b),
        reaches_in(h, a, b, n),
    ensures
        reaches_in(g, a, b, n),
    decreases n,
{
    if n > 0 {
        let m = choose|m: Seq<char>| #[trigger]
            waits_on(h, a, m) && reaches_in(h, m, b, (n - 1) as nat);
        lemma_fewer_edges_path(g, h, m, b, (n - 1) as nat);
        assert(waits_on(g, a, m));
    }
}

/// A new task, on which none waits yet, closes no cycle.
pub proof fn law_new_task_stays_acyclic(g: Seq<EdgesView>, node: EdgesView)
    requires
        acyclic(g),
        forall|a: Seq<char>| !#[trigger] waits_on(g, a, node.id),
        !node.deps.contains(node.id),
    ensures
        acyclic(g.push(node)),
{
    let h = g.push(node);
    assert forall|a: Seq<char>, b: Seq<char>| #[trigger] waits_on(h, a, b) implies (waits_on(
        g,
        a,
        b,
    ) || (a == node.id && node.deps.contains(b))) && b != node.id by {
        let i = choose|i: int| 0 <= i < h.len() && (#[trigger] h[i]).id == a && h[i].deps.contains(b);
        if i < g.len() {
            assert(g[i] == h[i]);
            assert(waits_on(g, a, b));
        }
    }
    assert forall|a: Seq<char>, n: nat| n > 0 implies !#[trigger] reaches_in(h, a, a, n) by {
        if reaches_in(h, a, a, n) {
            lemma_target_has_waiter(h, a, a, n);
            assert(a != node.id);
            lemma_new_task_path(g, node, a, a, n);
        }
    }
}

proof fn lemma_target_has_waiter(g: Seq<EdgesView>, a: Seq<char>, b: Seq<char>, n: nat)
    requires
        n > 0,
        reaches_in(g, a, b, n),
    ensures
        exists|x: Seq<char>| #[trigger] waits_on(g, x, b),
    decreases n,
{
    let m = choose|m: Seq<char>| #[trigger]
        waits_on(g, a, m) && reaches_in(g, m, b, (n - 1) as nat);
    if n > 1 {
        lemma_target_has_waiter(g, m, b, (n - 1) as nat);
    }
}

proof fn lemma_new_task_path(
    g: Seq<EdgesView>,
    node: EdgesView,
    a: Seq<char>,
    b: Seq<char>,
    n: nat,
)
    requires
        forall|x: Seq<char>, y: Seq<char>| #[trigger] waits_on(g.push(node), x, y) ==> (waits_on(
            g,
            x,
            y,
        ) || (x == node.id && node.deps.contains(y))) && y != node.id,
        a != node.id,
        reaches_in(g.push(node), a, b, n),
    ensures
        reaches_in(g, a, b, n),
    decreases n,
{
    if n > 0 {
        let m = choose|m: Seq<char>| #[trigger]
            waits_on(g.push(node), a, m) && reaches_in(g.push(node), m, b, (n - 1) as nat);
        lemma_new_task_path(g, node, m, b, (n - 1) as nat);
        assert(waits_on(g, a, m));
    }
}

} // verus!
