//! Stable sorting by an order of one's choice.
use vstd::prelude::*;

verus! {

/// An order of the values of a type.
pub trait Order<T> {
    /// `a` stands strictly before `b`.
    spec fn before(&self, a: T, b: T) -> bool;

    fn is_before(&self, a: &T, b: &T) -> (r: bool)
        ensures
            r == self.before(*a, *b),
    ;
}

/// The relation orders the values into a line of ties.
pub open spec fn is_order<T>(before: spec_fn(T, T) -> bool) -> bool {
    &&& forall|a: T, b: T| #[trigger] before(a, b) ==> !before(b, a)
    &&& forall|a: T, b: T, c: T| #[trigger]
        before(a, b) && !#[trigger] before(c, b) ==> before(a, c)
}

/// `x` put into `s` behind every value that it does not stand before.
pub open spec fn inserted<T>(before: spec_fn(T, T) -> bool, s: Seq<T>, x: T) -> Seq<T>
    decreases s.len(),
{
    if s.len() > 0 && before(x, s.last()) {
        inserted(before, s.drop_last(), x).push(s.last())
    } else {
        s.push(x)
    }
}

/// The values in order; values that tie keep the order in which they came.
pub open spec fn sorted<T>(before: spec_fn(T, T) -> bool, s: Seq<T>) -> Seq<T>
    decreases s.len(),
{
    if s.len() == 0 {
        s
    } else {
        inserted(before, sorted(before, s.drop_last()), s.last())
    }
}

/// No value stands before one that comes earlier in the list.
pub open spec fn in_order<T>(before: spec_fn(T, T) -> bool, s: Seq<T>) -> bool {
    forall|i: int, j: int| 0 <= i < j < s.len() ==> !before(#[trigger] s[j], #[trigger] s[i])
}

proof fn lemma_inserted_multiset<T>(before: spec_fn(T, T) -> bool, s: Seq<T>, x: T)
    ensures
        inserted(before, s, x).to_multiset() == s.push(x).to_multiset(),
    decreases s.len(),
{
    broadcast use vstd::seq_lib::group_to_multiset_ensures;

    if s.len() > 0 && before(x, s.last()) {
        let front = s.drop_last();
        lemma_inserted_multiset(before, front, x);
        let low = inserted(before, front, x);
        assert(s =~= front.push(s.last()));
        assert(low.push(s.last()).to_multiset() =~= s.push(x).to_multiset());
    }
}

/// Sorting keeps every value, as often as it was there.
pub proof fn law_sorted_keeps_values<T>(before: spec_fn(T, T) -> bool, s: Seq<T>)
    ensures
        sorted(before, s).to_multiset() == s.to_multiset(),
        sorted(before, s).len() == s.len(),
    decreases s.len(),
{
    broadcast use vstd::seq_lib::group_to_multiset_ensures;

    if s.len() > 0 {
        let front = s.drop_last();
        law_sorted_keeps_values(before, front);
        let low = sorted(before, front);
        lemma_inserted_multiset(before, low, s.last());
        assert(s =~= front.push(s.last()));
        assert(low.push(s.last()).to_multiset() =~= s.to_multiset());
    }
    assert(sorted(before, s).to_multiset().len() == s.to_multiset().len());
}

proof fn lemma_inserted_in_order<T>(before: spec_fn(T, T) -> bool, s: Seq<T>, x: T)
    requires
        is_order(before),
        in_order(before, s),
    ensures
        in_order(before, inserted(before, s, x)),
        forall|y: T| #[trigger] inserted(before, s, x).contains(y) ==> y == x || s.contains(y),
    decreases s.len(),
{
    let r = inserted(before, s, x);
    if s.len() > 0 && before(x, s.last()) {
        let front = s.drop_last();
        let last = s.last();
        lemma_inserted_in_order(before, front, x);
        let low = inserted(before, front, x);
        assert forall|y: T| #[trigger] r.contains(y) implies y == x || s.contains(y) by {
            let k = choose|k: int| 0 <= k < r.len() && r[k] == y;
            if k < low.len() {
                assert(low[k] == y);
                assert(low.contains(y));
                if y != x {
                    let m = choose|m: int| 0 <= m < front.len() && front[m] == y;
                    assert(s[m] == y);
                }
            } else {
                assert(s[s.len() - 1] == y);
            }
        }
        assert forall|i: int, j: int| 0 <= i < j < r.len() implies !before(
            #[trigger] r[j],
            #[trigger] r[i],
        ) by {
            if j == low.len() {
                assert(low.contains(low[i]));
                if r[i] == x {
                    assert(before(x, last));
                } else {
                    let m = choose|m: int| 0 <= m < front.len() && front[m] == r[i];
                    assert(s[m] == r[i]);
                    assert(!before(s[s.len() - 1], s[m]));
                }
            } else {
                assert(low[i] == r[i] && low[j] == r[j]);
            }
        }
    } else {
        assert forall|y: T| #[trigger] r.contains(y) implies y == x || s.contains(y) by {
            let k = choose|k: int| 0 <= k < r.len() && r[k] == y;
            if k < s.len() {
                assert(s[k] == y);
            }
        }
        assert forall|i: int, j: int| 0 <= i < j < r.len() implies !before(
            #[trigger] r[j],
            #[trigger] r[i],
        ) by {
            if j == s.len() {
                if before(x, s[i]) {
                    if i == s.len() - 1 {
                    } else {
                        assert(!before(s[s.len() - 1], s[i]));
                        assert(before(x, s[s.len() - 1]));
                    }
                }
            } else {
                assert(s[i] == r[i] && s[j] == r[j]);
            }
        }
    }
}

/// Sorting puts the values in order.
pub proof fn law_sorted_in_order<T>(before: spec_fn(T, T) -> bool, s: Seq<T>)
    requires
        is_order(before),
    ensures
        in_order(before, sorted(before, s)),
    decreases s.len(),
{
    if s.len() > 0 {
        law_sorted_in_order(before, s.drop_last());
        lemma_inserted_in_order(before, sorted(before, s.drop_last()), s.last());
    }
}

/// Two lists in order, merged; on a tie the first list goes first.
pub open spec fn merged<T>(before: spec_fn(T, T) -> bool, a: Seq<T>, b: Seq<T>) -> Seq<T>
    decreases a.len() + b.len(),
{
    if a.len() == 0 {
        b
    } else if b.len() == 0 {
        a
    } else if before(b[0], a[0]) {
        seq![b[0]] + merged(before, a, b.drop_first())
    } else {
        seq![a[0]] + merged(before, a.drop_first(), b)
    }
}

proof fn lemma_in_order_rest<T>(before: spec_fn(T, T) -> bool, s: Seq<T>)
    requires
        in_order(before, s),
        s.len() > 0,
    ensures
        in_order(before, s.drop_first()),
        in_order(before, s.drop_last()),
{
    assert forall|i: int, j: int| 0 <= i < j < s.len() - 1 implies !before(
        #[trigger] s.drop_first()[j],
        #[trigger] s.drop_first()[i],
    ) by {
        assert(!before(s[j + 1], s[i + 1]));
    }
    assert forall|i: int, j: int| 0 <= i < j < s.len() - 1 implies !before(
        #[trigger] s.drop_last()[j],
        #[trigger] s.drop_last()[i],
    ) by {
        assert(!before(s[j], s[i]));
    }
}

proof fn lemma_inserted_behind_head<T>(before: spec_fn(T, T) -> bool, h: T, s: Seq<T>, x: T)
    requires
        !before(x, h),
    ensures
        inserted(before, seq![h] + s, x) == seq![h] + inserted(before, s, x),
    decreases s.len(),
{
    let all = seq![h] + s;
    if s.len() == 0 {
        assert(all =~= seq![h]);
        assert(inserted(before, all, x) =~= seq![h] + inserted(before, s, x));
    } else {
        assert(all.last() == s.last());
        assert(all.drop_last() =~= seq![h] + s.drop_last());
        lemma_inserted_behind_head(before, h, s.drop_last(), x);
        assert(inserted(before, all, x) =~= seq![h] + inserted(before, s, x));
    }
}

proof fn lemma_inserted_into_merged<T>(
    before: spec_fn(T, T) -> bool,
    a: Seq<T>,
    b: Seq<T>,
    x: T,
)
    requires
        is_order(before),
        in_order(before, a),
        in_order(before, b.push(x)),
    ensures
        inserted(before, merged(before, a, b), x) == merged(before, a, b.push(x)),
    decreases a.len() + b.len(),
{
    let bx = b.push(x);
    if a.len() == 0 {
        if b.len() > 0 {
            assert(!before(bx[b.len() as int], bx[b.len() - 1]));
        }
    } else if b.len() == 0 {
        assert(bx[0] == x);
        assert(bx.drop_first() =~= b);
        if before(x, a[0]) {
            assert forall|k: int| 0 <= k < a.len() implies before(x, #[trigger] a[k]) by {
                if k > 0 {
                    assert(!before(a[k], a[0]));
                }
            }
            lemma_inserted_at(before, a, x, 0);
            assert(a.insert(0, x) =~= seq![x] + a);
        } else {
            lemma_in_order_rest(before, a);
            lemma_inserted_into_merged(before, a.drop_first(), b, x);
            lemma_inserted_behind_head(before, a[0], a.drop_first(), x);
            assert(a =~= seq![a[0]] + a.drop_first());
            if a.drop_first().len() == 0 {
                assert(merged(before, a.drop_first(), b) =~= a.drop_first());
            }
        }
    } else {
        assert(bx[0] == b[0]);
        assert(bx.drop_first() =~= b.drop_first().push(x));
        assert(!before(bx[b.len() as int], bx[0]));
        lemma_in_order_rest(before, bx);
        lemma_in_order_rest(before, a);
        if before(b[0], a[0]) {
            lemma_inserted_into_merged(before, a, b.drop_first(), x);
            lemma_inserted_behind_head(before, b[0], merged(before, a, b.drop_first()), x);
        } else {
            if before(x, a[0]) {
                assert(before(x, b[0]));
            }
            lemma_inserted_into_merged(before, a.drop_first(), b, x);
            lemma_inserted_behind_head(before, a[0], merged(before, a.drop_first(), b), x);
        }
    }
}

/// A list in order is sorted already.
pub proof fn law_sorted_keeps_order<T>(before: spec_fn(T, T) -> bool, s: Seq<T>)
    requires
        in_order(before, s),
    ensures
        sorted(before, s) == s,
    decreases s.len(),
{
    if s.len() > 0 {
        lemma_in_order_rest(before, s);
        law_sorted_keeps_order(before, s.drop_last());
        if s.len() > 1 {
            assert(!before(s[s.len() - 1], s[s.len() - 2]));
        }
        assert(s.drop_last().push(s.last()) =~= s);
    }
}

/// Sorting two lists that are in order merges them.
pub proof fn law_sorted_merges<T>(before: spec_fn(T, T) -> bool, a: Seq<T>, b: Seq<T>)
    requires
        is_order(before),
        in_order(before, a),
        in_order(before, b),
    ensures
        sorted(before, a + b) == merged(before, a, b),
    decreases b.len(),
{
    if b.len() == 0 {
        assert(a + b =~= a);
        law_sorted_keeps_order(before, a);
        if a.len() == 0 {
            assert(a =~= b);
        }
    } else {
        lemma_in_order_rest(before, b);
        law_sorted_merges(before, a, b.drop_last());
        assert((a + b).drop_last() =~= a + b.drop_last());
        assert(b.drop_last().push(b.last()) =~= b);
        lemma_inserted_into_merged(before, a, b.drop_last(), b.last());
    }
}

/// The first `n` of two merged lists lie within the first `p >= n` of one and
/// the first `q >= n` of the other.
pub proof fn lemma_merged_take<T>(
    before: spec_fn(T, T) -> bool,
    a: Seq<T>,
    b: Seq<T>,
    p: int,
    q: int,
    n: int,
)
    requires
        0 <= n,
        n <= p <= a.len() || p == a.len(),
        n <= q <= b.len() || q == b.len(),
    ensures
        first_of(merged(before, a.take(p), b.take(q)), n) == first_of(merged(before, a, b), n),
    decreases n,
{
    let a1 = a.take(p);
    let b1 = b.take(q);
    let m = merged(before, a, b);
    let m1 = merged(before, a1, b1);
    lemma_merged_len(before, a, b);
    lemma_merged_len(before, a1, b1);
    if n == 0 {
        assert(first_of(m, 0) =~= first_of(m1, 0));
    } else if a.len() == 0 {
        assert(first_of(m, n) =~= first_of(m1, n));
    } else if b.len() == 0 {
        assert(first_of(m, n) =~= first_of(m1, n));
    } else {
        assert(a1[0] == a[0] && b1[0] == b[0]);
        if before(b[0], a[0]) {
            let rest = b.drop_first();
            assert(b1.drop_first() =~= rest.take(q - 1));
            lemma_merged_take(before, a, rest, p, q - 1, n - 1);
            lemma_first_of_cons(b[0], merged(before, a, rest), n);
            lemma_first_of_cons(b[0], merged(before, a1, rest.take(q - 1)), n);
        } else {
            let rest = a.drop_first();
            assert(a1.drop_first() =~= rest.take(p - 1));
            lemma_merged_take(before, rest, b, p - 1, q, n - 1);
            lemma_first_of_cons(a[0], merged(before, rest, b), n);
            lemma_first_of_cons(a[0], merged(before, rest.take(p - 1), b1), n);
        }
    }
}

proof fn lemma_merged_len<T>(before: spec_fn(T, T) -> bool, a: Seq<T>, b: Seq<T>)
    ensures
        merged(before, a, b).len() == a.len() + b.len(),
    decreases a.len() + b.len(),
{
    if a.len() == 0 || b.len() == 0 {
    } else if before(b[0], a[0]) {
        lemma_merged_len(before, a, b.drop_first());
    } else {
        lemma_merged_len(before, a.drop_first(), b);
    }
}

/// The first `n` values, or all where there are fewer.
pub open spec fn first_of<T>(s: Seq<T>, n: int) -> Seq<T> {
    if s.len() <= n {
        s
    } else {
        s.take(n)
    }
}

proof fn lemma_first_of_cons<T>(x: T, s: Seq<T>, n: int)
    requires
        n > 0,
    ensures
        first_of(seq![x] + s, n) == seq![x] + first_of(s, n - 1),
{
    assert(first_of(seq![x] + s, n) =~= seq![x] + first_of(s, n - 1));
}

/// Values that stand for others sort as those do.
pub proof fn lemma_sorted_map<T, U>(
    before: spec_fn(T, T) -> bool,
    other: spec_fn(U, U) -> bool,
    f: spec_fn(T) -> U,
    s: Seq<T>,
)
    requires
        forall|a: T, b: T| #[trigger] before(a, b) == other(f(a), f(b)),
    ensures
        sorted(before, s).map_values(f) == sorted(other, s.map_values(f)),
    decreases s.len(),
{
    if s.len() == 0 {
        assert(sorted(before, s).map_values(f) =~= sorted(other, s.map_values(f)));
    } else {
        lemma_sorted_map(before, other, f, s.drop_last());
        assert(s.map_values(f).drop_last() =~= s.drop_last().map_values(f));
        lemma_inserted_map(before, other, f, sorted(before, s.drop_last()), s.last());
    }
}

proof fn lemma_inserted_map<T, U>(
    before: spec_fn(T, T) -> bool,
    other: spec_fn(U, U) -> bool,
    f: spec_fn(T) -> U,
    s: Seq<T>,
    x: T,
)
    requires
        forall|a: T, b: T| #[trigger] before(a, b) == other(f(a), f(b)),
    ensures
        inserted(before, s, x).map_values(f) == inserted(other, s.map_values(f), f(x)),
    decreases s.len(),
{
    if s.len() > 0 && before(x, s.last()) {
        lemma_inserted_map(before, other, f, s.drop_last(), x);
        assert(s.map_values(f).drop_last() =~= s.drop_last().map_values(f));
        assert(s.map_values(f).last() == f(s.last()));
        let low = inserted(before, s.drop_last(), x);
        assert(low.push(s.last()).map_values(f) =~= low.map_values(f).push(f(s.last())));
    } else {
        if s.len() > 0 {
            assert(s.map_values(f).last() == f(s.last()));
        }
        assert(s.push(x).map_values(f) =~= s.map_values(f).push(f(x)));
    }
}

/// Where every value has the property, filtering keeps all.
pub proof fn lemma_filter_all<T>(s: Seq<T>, p: spec_fn(T) -> bool)
    requires
        forall|i: int| 0 <= i < s.len() ==> p(#[trigger] s[i]),
    ensures
        s.filter(p) == s,
    decreases s.len(),
{
    reveal(Seq::filter);
    if s.len() > 0 {
        let front = s.drop_last();
        assert forall|i: int| 0 <= i < front.len() implies p(#[trigger] front[i]) by {
            assert(front[i] == s[i]);
        }
        lemma_filter_all(front, p);
        assert(p(s[s.len() - 1]));
        assert(front.push(s.last()) =~= s);
    }
}

/// Where exactly the values from a place on have the property, filtering keeps
/// what stands there.
pub proof fn lemma_filter_is_suffix<T>(s: Seq<T>, p: spec_fn(T) -> bool, at: int)
    requires
        0 <= at <= s.len(),
        forall|i: int| 0 <= i < at ==> !p(#[trigger] s[i]),
        forall|i: int| at <= i < s.len() ==> p(#[trigger] s[i]),
    ensures
        s.filter(p) == s.skip(at),
    decreases s.len(),
{
    reveal(Seq::filter);
    if s.len() > 0 {
        let front = s.drop_last();
        assert(forall|i: int| 0 <= i < front.len() ==> #[trigger] front[i] == s[i]);
        if at < s.len() {
            lemma_filter_is_suffix(front, p, at);
            assert(p(s[s.len() - 1]));
            assert(front.skip(at).push(s.last()) =~= s.skip(at));
        } else {
            lemma_filter_is_suffix(front, p, at - 1);
            assert(!p(s[s.len() - 1]));
            assert(front.skip(at - 1) =~= s.skip(at));
        }
    } else {
        assert(s.skip(at) =~= s);
    }
}

/// Filtering by what values stand for is filtering those.
pub proof fn lemma_filter_map<T, U>(s: Seq<T>, f: spec_fn(T) -> U, p: spec_fn(U) -> bool)
    ensures
        s.filter(|x: T| p(f(x))).map_values(f) == s.map_values(f).filter(p),
    decreases s.len(),
{
    reveal(Seq::filter);
    let pf = |x: T| p(f(x));
    if s.len() == 0 {
        assert(s.filter(pf).map_values(f) =~= s.map_values(f).filter(p));
    } else {
        let front = s.drop_last();
        lemma_filter_map(front, f, p);
        assert(s.map_values(f).drop_last() =~= front.map_values(f));
        assert(s.map_values(f).last() == f(s.last()));
        assert(front.filter(pf).push(s.last()).map_values(f) =~= front.filter(pf).map_values(
            f,
        ).push(f(s.last())));
    }
}

/// What is kept of a list in order is in order, and comes from the list.
pub proof fn lemma_filter_in_order<T>(
    before: spec_fn(T, T) -> bool,
    s: Seq<T>,
    p: spec_fn(T) -> bool,
)
    requires
        in_order(before, s),
    ensures
        in_order(before, s.filter(p)),
        forall|i: int| 0 <= i < s.filter(p).len() ==> s.contains(#[trigger] s.filter(p)[i]),
    decreases s.len(),
{
    reveal(Seq::filter);
    if s.len() > 0 {
        let front = s.drop_last();
        let less = front.filter(p);
        let kept = s.filter(p);
        lemma_in_order_rest(before, s);
        lemma_filter_in_order(before, front, p);
        assert forall|i: int| 0 <= i < kept.len() implies s.contains(#[trigger] kept[i]) by {
            if i < less.len() {
                assert(kept[i] == less[i]);
                let k = choose|k: int| 0 <= k < front.len() && front[k] == less[i];
                assert(s[k] == kept[i]);
            } else {
                assert(s[s.len() - 1] == kept[i]);
            }
        }
        assert forall|i: int, j: int| 0 <= i < j < kept.len() implies !before(
            #[trigger] kept[j],
            #[trigger] kept[i],
        ) by {
            assert(kept[i] == less[i]);
            if j < less.len() {
                assert(kept[j] == less[j]);
            } else {
                let k = choose|k: int| 0 <= k < front.len() && front[k] == less[i];
                assert(!before(s[s.len() - 1], s[k]));
            }
        }
    }
}

proof fn lemma_inserted_filter<T>(
    before: spec_fn(T, T) -> bool,
    s: Seq<T>,
    x: T,
    p: spec_fn(T) -> bool,
)
    requires
        is_order(before),
        in_order(before, s),
    ensures
        inserted(before, s, x).filter(p) == if p(x) {
            inserted(before, s.filter(p), x)
        } else {
            s.filter(p)
        },
    decreases s.len(),
{
    reveal(Seq::filter);
    if s.len() > 0 && before(x, s.last()) {
        let front = s.drop_last();
        let low = inserted(before, front, x);
        lemma_in_order_rest(before, s);
        lemma_inserted_filter(before, front, x, p);
        assert(low.push(s.last()).drop_last() =~= low);
        if p(s.last()) {
            let kept = front.filter(p);
            assert(kept.push(s.last()).drop_last() =~= kept);
        }
    } else {
        assert(s.push(x).drop_last() =~= s);
        let kept = s.filter(p);
        if p(x) && kept.len() > 0 {
            lemma_filter_in_order(before, s, p);
            let k = choose|k: int| 0 <= k < s.len() && s[k] == kept[kept.len() - 1];
            if before(x, kept.last()) {
                if k < s.len() - 1 {
                    assert(!before(s[s.len() - 1], s[k]));
                    assert(before(x, s[s.len() - 1]));
                }
            }
        }
    }
}

/// Sorting what is kept is keeping of what is sorted.
pub proof fn lemma_sorted_filter<T>(
    before: spec_fn(T, T) -> bool,
    s: Seq<T>,
    p: spec_fn(T) -> bool,
)
    requires
        is_order(before),
    ensures
        sorted(before, s.filter(p)) == sorted(before, s).filter(p),
    decreases s.len(),
{
    reveal(Seq::filter);
    if s.len() > 0 {
        let front = s.drop_last();
        lemma_sorted_filter(before, front, p);
        law_sorted_in_order(before, front);
        lemma_inserted_filter(before, sorted(before, front), s.last(), p);
        if p(s.last()) {
            let kept = front.filter(p);
            assert(kept.push(s.last()).drop_last() =~= kept);
        }
    }
}

/// Sorts the values; values that tie keep the order in which they came.
pub fn stable_sort<T, O: Order<T>>(order: &O, v: Vec<T>) -> (r: Vec<T>)
    ensures
        r@ == sorted(|a: T, b: T| order.before(a, b), v@),
{
    let ghost f = |a: T, b: T| order.before(a, b);
    let ghost all = v@;
    let mut rest = v;
    let mut r: Vec<T> = Vec::new();
    // Values are taken from the back and put in from the front, so the list is
    // turned round first.
    let mut back: Vec<T> = Vec::new();
    while rest.len() > 0
        invariant
            back@.len() + rest@.len() == all.len(),
            rest@ == all.take(rest@.len() as int),
            forall|k: int|
                0 <= k < back@.len() ==> #[trigger] back@[k] == all[all.len() - 1 - k],
        decreases rest@.len(),
    {
        if let Some(x) = rest.pop() {
            back.push(x);
        }
        assert(rest@ =~= all.take(rest@.len() as int));
    }
    assert(all.take(0) =~= Seq::<T>::empty());
    while back.len() > 0
        invariant
            f == (|a: T, b: T| order.before(a, b)),
            back@.len() <= all.len(),
            forall|k: int|
                0 <= k < back@.len() ==> #[trigger] back@[k] == all[all.len() - 1 - k],
            r@ == sorted(f, all.take(all.len() - back@.len())),
        decreases back@.len(),
    {
        let ghost n = all.len() - back@.len();
        if let Some(x) = back.pop() {
            proof {
                assert(all.take(n + 1).drop_last() =~= all.take(n));
                assert(all.take(n + 1).last() == x);
            }
            insert(order, &mut r, x);
        }
    }
    assert(all.take(all.len() as int) =~= all);
    r
}

proof fn lemma_inserted_at<T>(before: spec_fn(T, T) -> bool, s: Seq<T>, x: T, at: int)
    requires
        0 <= at <= s.len(),
        forall|k: int| at <= k < s.len() ==> before(x, #[trigger] s[k]),
        at > 0 ==> !before(x, s[at - 1]),
    ensures
        inserted(before, s, x) == s.insert(at, x),
    decreases s.len(),
{
    if at < s.len() {
        assert(before(x, s[s.len() - 1]));
        lemma_inserted_at(before, s.drop_last(), x, at);
        assert(s.drop_last().insert(at, x).push(s.last()) =~= s.insert(at, x));
    } else {
        assert(s.insert(at, x) =~= s.push(x));
    }
}

fn insert<T, O: Order<T>>(order: &O, r: &mut Vec<T>, x: T)
    ensures
        final(r)@ == inserted(|a: T, b: T| order.before(a, b), old(r)@, x),
{
    let ghost f = |a: T, b: T| order.before(a, b);
    let mut at: usize = r.len();
    while at > 0 && order.is_before(&x, &r[at - 1])
        invariant
            r@ == old(r)@,
            at <= r@.len(),
            f == (|a: T, b: T| order.before(a, b)),
            forall|k: int| at <= k < r@.len() ==> f(x, #[trigger] r@[k]),
        decreases at,
    {
        at = at - 1;
    }
    proof {
        lemma_inserted_at(f, r@, x, at as int);
    }
    r.insert(at, x);
}

/// The first values of a list are its beginning: as many as were asked for, or all of
/// them where there are fewer.
pub proof fn law_first_values_are_the_beginning<T>(s: Seq<T>, n: int)
    requires
        0 <= n,
    ensures
        first_of(s, n).len() == (if s.len() < n { s.len() as int } else { n }),
        forall|i: int| 0 <= i < first_of(s, n).len() ==> #[trigger] first_of(s, n)[i] == s[i],
{
}

} // verus!
