//! Finding the first value that has a property.
use vstd::prelude::*;

verus! {

/// Where the first value stands that has the property; `None` where none has.
pub open spec fn first_index<T>(s: Seq<T>, p: spec_fn(T) -> bool) -> Option<int>
    decreases s.len(),
{
    if s.len() == 0 {
        None
    } else if first_index(s.drop_last(), p) is Some {
        first_index(s.drop_last(), p)
    } else if p(s.last()) {
        Some(s.len() - 1)
    } else {
        None
    }
}

/// The first value that has the property.
pub open spec fn first<T>(s: Seq<T>, p: spec_fn(T) -> bool) -> Option<T> {
    match first_index(s, p) {
        Some(i) => Some(s[i]),
        None => None,
    }
}

/// Some value has the property.
pub open spec fn any<T>(s: Seq<T>, p: spec_fn(T) -> bool) -> bool {
    exists|i: int| 0 <= i < s.len() && p(#[trigger] s[i])
}

pub proof fn lemma_first_index<T>(s: Seq<T>, p: spec_fn(T) -> bool)
    ensures
        match first_index(s, p) {
            Some(i) => 0 <= i < s.len() && p(s[i]) && forall|j: int|
                0 <= j < i ==> !p(#[trigger] s[j]),
            None => forall|j: int| 0 <= j < s.len() ==> !p(#[trigger] s[j]),
        },
        first_index(s, p) is Some <==> any(s, p),
    decreases s.len(),
{
    if s.len() > 0 {
        let front = s.drop_last();
        lemma_first_index(front, p);
        match first_index(s, p) {
            Some(i) => {
                assert forall|j: int| 0 <= j < i implies !p(#[trigger] s[j]) by {
                    assert(front[j] == s[j]);
                }
                if i < front.len() {
                    assert(front[i] == s[i]);
                }
                assert(p(s[i]));
            },
            None => {
                assert forall|j: int| 0 <= j < s.len() implies !p(#[trigger] s[j]) by {
                    if j < front.len() {
                        assert(front[j] == s[j]);
                    }
                }
            },
        }
    }
}

/// A value that has the property and that none with it precedes is the first.
pub proof fn lemma_is_first<T>(s: Seq<T>, p: spec_fn(T) -> bool, i: int)
    requires
        0 <= i < s.len(),
        p(s[i]),
        forall|j: int| 0 <= j < i ==> !p(#[trigger] s[j]),
    ensures
        first_index(s, p) == Some(i),
        first(s, p) == Some(s[i]),
{
    lemma_first_index(s, p);
    let k = first_index(s, p);
    if let Some(k) = k {
        if k < i {
            assert(!p(s[k]));
        } else if i < k {
            assert(!p(s[i]));
        }
    }
}

/// Two properties that the values of a list share pick the same values out of it.
pub proof fn lemma_filter_same<T>(s: Seq<T>, p: spec_fn(T) -> bool, q: spec_fn(T) -> bool)
    requires
        forall|i: int| 0 <= i < s.len() ==> p(#[trigger] s[i]) == q(s[i]),
    ensures
        s.filter(p) == s.filter(q),
    decreases s.len(),
{
    reveal(Seq::filter);
    if s.len() > 0 {
        let front = s.drop_last();
        assert forall|i: int| 0 <= i < front.len() implies p(#[trigger] front[i])
            == q(front[i]) by {
            assert(front[i] == s[i]);
        }
        lemma_filter_same(front, p, q);
        assert(p(s[s.len() - 1]) == q(s[s.len() - 1]));
    }
}

/// Where no value has the property, there is no first one.
pub proof fn lemma_no_first<T>(s: Seq<T>, p: spec_fn(T) -> bool)
    requires
        forall|j: int| 0 <= j < s.len() ==> !p(#[trigger] s[j]),
    ensures
        first_index(s, p) is None,
        first(s, p) is None,
        !any(s, p),
{
    lemma_first_index(s, p);
}

/// What a short list holds.
pub proof fn lemma_few<T>(s: Seq<T>)
    requires
        s.len() <= 4,
    ensures
        forall|x: T| #[trigger]
            s.contains(x) <==> {
                ||| s.len() > 0 && s[0] == x
                ||| s.len() > 1 && s[1] == x
                ||| s.len() > 2 && s[2] == x
                ||| s.len() > 3 && s[3] == x
            },
{
    assert forall|x: T| #[trigger] s.contains(x) implies {
        ||| s.len() > 0 && s[0] == x
        ||| s.len() > 1 && s[1] == x
        ||| s.len() > 2 && s[2] == x
        ||| s.len() > 3 && s[3] == x
    } by {
        let k = choose|k: int| 0 <= k < s.len() && s[k] == x;
        assert(k == 0 || k == 1 || k == 2 || k == 3);
    }
}

} // verus!
