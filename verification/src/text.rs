//! Text as sequences of characters and as the bytes that encode them.
use vstd::prelude::*;
use vstd::string::StringSliceAdditionalSpecFns;
use vstd::utf8::*;

verus! {

/// The texts of a list of strings.
pub open spec fn texts(v: Seq<String>) -> Seq<Seq<char>> {
    v.map_values(|s: String| s@)
}

/// The text of an optional string.
pub open spec fn opt_text(o: Option<String>) -> Option<Seq<char>> {
    match o {
        Some(s) => Some(s@),
        None => None,
    }
}

/// The text of an optional string slice.
pub open spec fn opt_str(o: Option<&str>) -> Option<Seq<char>> {
    match o {
        Some(s) => Some(s@),
        None => None,
    }
}

/// What a list of string slices says.
pub open spec fn slices(v: Seq<&str>) -> Seq<Seq<char>> {
    v.map_values(|s: &str| s@)
}

/// The number of bytes of a text.
pub open spec fn byte_len(s: Seq<char>) -> nat {
    encode_utf8(s).len()
}

/// The code points with the Unicode property `White_Space`.
pub open spec fn is_white_space(c: char) -> bool {
    let n = c as u32;
    ||| 0x9 <= n <= 0xd
    ||| n == 0x20
    ||| n == 0x85
    ||| n == 0xa0
    ||| n == 0x1680
    ||| 0x2000 <= n <= 0x200a
    ||| n == 0x2028
    ||| n == 0x2029
    ||| n == 0x202f
    ||| n == 0x205f
    ||| n == 0x3000
}

/// Every character of the text is white space.
pub open spec fn is_blank(s: Seq<char>) -> bool {
    forall|i: int| 0 <= i < s.len() ==> is_white_space(#[trigger] s[i])
}

/// The text without its leading white space.
pub open spec fn trimmed_start(s: Seq<char>) -> Seq<char>
    decreases s.len(),
{
    if s.len() > 0 && is_white_space(s[0]) {
        trimmed_start(s.drop_first())
    } else {
        s
    }
}

/// The text without its trailing white space.
pub open spec fn trimmed_end(s: Seq<char>) -> Seq<char>
    decreases s.len(),
{
    if s.len() > 0 && is_white_space(s.last()) {
        trimmed_end(s.drop_last())
    } else {
        s
    }
}

/// The text without its leading and its trailing white space.
pub open spec fn trimmed(s: Seq<char>) -> Seq<char> {
    trimmed_end(trimmed_start(s))
}

/// The decimal digits of a number, without leading zeros.
pub open spec fn decimal(n: nat) -> Seq<char>
    decreases n,
{
    if n < 10 {
        seq![digit(n)]
    } else {
        decimal(n / 10).push(digit(n % 10))
    }
}

pub open spec fn digit(n: nat) -> char {
    (48 + n) as char
}

/// `a` stands before `b` in the lexicographic order of their elements.
pub open spec fn lex_before(a: Seq<u8>, b: Seq<u8>) -> bool
    decreases a.len(),
{
    if b.len() == 0 {
        false
    } else if a.len() == 0 {
        true
    } else if a[0] != b[0] {
        a[0] < b[0]
    } else {
        lex_before(a.drop_first(), b.drop_first())
    }
}

/// The order of strings: lexicographic by their bytes.
pub open spec fn text_before(a: Seq<char>, b: Seq<char>) -> bool {
    lex_before(encode_utf8(a), encode_utf8(b))
}

/// `needle` stands in `hay` at the character position `at`.
pub open spec fn occurs_at(hay: Seq<char>, needle: Seq<char>, at: int) -> bool {
    &&& 0 <= at
    &&& at + needle.len() <= hay.len()
    &&& hay.subrange(at, at + needle.len()) == needle
}

/// `at` is the first position at which `needle` stands in `hay`.
pub open spec fn first_occurs_at(hay: Seq<char>, needle: Seq<char>, at: int) -> bool {
    &&& occurs_at(hay, needle, at)
    &&& forall|k: int| 0 <= k < at ==> !occurs_at(hay, needle, k)
}

/// The longest beginning of a text that takes at most `budget` bytes.
pub open spec fn head_within(s: Seq<char>, budget: nat) -> Seq<char>
    decreases s.len(),
{
    if byte_len(s) <= budget || s.len() == 0 {
        s
    } else {
        head_within(s.drop_last(), budget)
    }
}

pub proof fn lemma_encode_concat(a: Seq<char>, b: Seq<char>)
    ensures
        encode_utf8(a + b) == encode_utf8(a) + encode_utf8(b),
    decreases a.len(),
{
    if a.len() == 0 {
        assert(a + b =~= b);
        assert(encode_utf8(a) + encode_utf8(b) =~= encode_utf8(b));
    } else {
        lemma_encode_concat(a.drop_first(), b);
        assert((a + b).drop_first() =~= a.drop_first() + b);
        assert(encode_utf8(a + b) =~= encode_utf8(a) + encode_utf8(b));
    }
}

pub proof fn lemma_encode_injective(a: Seq<char>, b: Seq<char>)
    requires
        encode_utf8(a) == encode_utf8(b),
    ensures
        a == b,
{
    encode_utf8_decode_utf8(a);
    encode_utf8_decode_utf8(b);
}

/// A text trims to nothing exactly when it is blank.
pub proof fn lemma_trimmed_empty(s: Seq<char>)
    ensures
        trimmed(s).len() == 0 <==> is_blank(s),
{
    lemma_trimmed_start_blank(s);
    lemma_trimmed_end_blank(trimmed_start(s));
}

proof fn lemma_trimmed_start_blank(s: Seq<char>)
    ensures
        is_blank(trimmed_start(s)) <==> is_blank(s),
    decreases s.len(),
{
    if s.len() > 0 && is_white_space(s[0]) {
        let t = s.drop_first();
        lemma_trimmed_start_blank(t);
        if is_blank(t) {
            assert forall|i: int| 0 <= i < s.len() implies is_white_space(#[trigger] s[i]) by {
                if i > 0 {
                    assert(s[i] == t[i - 1]);
                }
            }
        }
        if is_blank(s) {
            assert forall|i: int| 0 <= i < t.len() implies is_white_space(#[trigger] t[i]) by {
                assert(t[i] == s[i + 1]);
            }
        }
    }
}

proof fn lemma_trimmed_end_blank(s: Seq<char>)
    ensures
        trimmed_end(s).len() == 0 <==> is_blank(s),
    decreases s.len(),
{
    if s.len() > 0 && is_white_space(s.last()) {
        let t = s.drop_last();
        lemma_trimmed_end_blank(t);
        if is_blank(t) {
            assert forall|i: int| 0 <= i < s.len() implies is_white_space(#[trigger] s[i]) by {
                if i < s.len() - 1 {
                    assert(s[i] == t[i]);
                }
            }
        }
        if is_blank(s) {
            assert forall|i: int| 0 <= i < t.len() implies is_white_space(#[trigger] t[i]) by {
                assert(t[i] == s[i]);
            }
        }
    } else if s.len() > 0 {
        assert(!is_white_space(s[s.len() - 1]));
    }
}

/// A copy of an optional string.
pub(crate) fn copy_opt(o: &Option<String>) -> (r: Option<String>)
    ensures
        r == *o,
{
    match o {
        Some(s) => Some(s.clone()),
        None => None,
    }
}

/// An owned copy of an optional string slice.
pub(crate) fn own_opt(o: Option<&str>) -> (r: Option<String>)
    ensures
        opt_text(r) == opt_str(o),
{
    match o {
        Some(s) => Some(s.to_owned()),
        None => None,
    }
}

/// Wraps `str::trim`: the slice without leading and trailing white space,
/// where white space is the Unicode property `White_Space`.
#[verifier::external_body]
pub(crate) fn trim(s: &str) -> (r: &str)
    ensures
        r@ == trimmed(s@),
{
    s.trim()
}

/// Wraps `str::trim_end`: the slice without trailing white space, where white
/// space is the Unicode property `White_Space`.
#[verifier::external_body]
pub(crate) fn trim_end(s: &str) -> (r: &str)
    ensures
        r@ == trimmed_end(s@),
{
    s.trim_end()
}

/// Whether every character of the text is white space.
pub fn blank(s: &str) -> (r: bool)
    ensures
        r == is_blank(s@),
{
    proof {
        lemma_trimmed_empty(s@);
    }
    trim(s).is_empty()
}

/// Whether two texts hold the same characters.
pub fn same_text(a: &str, b: &str) -> (r: bool)
    ensures
        r == (a@ == b@),
{
    let x = a.as_bytes();
    let y = b.as_bytes();
    if x.len() != y.len() {
        return false;
    }
    let mut i: usize = 0;
    while i < x.len()
        invariant
            x@ == encode_utf8(a@),
            y@ == encode_utf8(b@),
            x@.len() == y@.len(),
            i <= x@.len(),
            forall|k: int| 0 <= k < i ==> x@[k] == y@[k],
        decreases x@.len() - i,
    {
        if x[i] != y[i] {
            return false;
        }
        i = i + 1;
    }
    proof {
        assert(x@ =~= y@);
        lemma_encode_injective(a@, b@);
    }
    true
}

/// Whether the text is one of the list.
pub fn text_listed(list: &[String], s: &str) -> (r: bool)
    ensures
        r == texts(list@).contains(s@),
{
    let mut i: usize = 0;
    while i < list.len()
        invariant
            i <= list@.len(),
            forall|k: int| 0 <= k < i ==> #[trigger] texts(list@)[k] != s@,
        decreases list@.len() - i,
    {
        if same_text(list[i].as_str(), s) {
            assert(texts(list@)[i as int] == s@);
            return true;
        }
        i = i + 1;
    }
    false
}

proof fn lemma_lex_skip(a: Seq<u8>, b: Seq<u8>, n: int)
    requires
        0 <= n <= a.len(),
        n <= b.len(),
        forall|k: int| 0 <= k < n ==> a[k] == b[k],
    ensures
        lex_before(a, b) == lex_before(
            a.subrange(n, a.len() as int),
            b.subrange(n, b.len() as int),
        ),
    decreases n,
{
    if n == 0 {
        assert(a.subrange(0, a.len() as int) =~= a);
        assert(b.subrange(0, b.len() as int) =~= b);
    } else {
        let a1 = a.drop_first();
        let b1 = b.drop_first();
        assert forall|k: int| 0 <= k < n - 1 implies a1[k] == b1[k] by {
            assert(a[k + 1] == b[k + 1]);
        }
        lemma_lex_skip(a1, b1, n - 1);
        assert(a1.subrange(n - 1, a1.len() as int) =~= a.subrange(n, a.len() as int));
        assert(b1.subrange(n - 1, b1.len() as int) =~= b.subrange(n, b.len() as int));
    }
}

proof fn lemma_lex_asymmetric(a: Seq<u8>, b: Seq<u8>)
    requires
        lex_before(a, b),
    ensures
        !lex_before(b, a),
    decreases a.len(),
{
    if a.len() > 0 && a[0] == b[0] {
        lemma_lex_asymmetric(a.drop_first(), b.drop_first());
    }
}

proof fn lemma_lex_between(a: Seq<u8>, b: Seq<u8>, c: Seq<u8>)
    requires
        lex_before(a, b),
        !lex_before(c, b),
    ensures
        lex_before(a, c),
    decreases a.len(),
{
    if a.len() > 0 && c.len() > 0 && a[0] == b[0] && c[0] == b[0] {
        lemma_lex_between(a.drop_first(), b.drop_first(), c.drop_first());
    }
}

proof fn lemma_lex_total(a: Seq<u8>, b: Seq<u8>)
    requires
        a != b,
    ensures
        lex_before(a, b) || lex_before(b, a),
    decreases a.len(),
{
    if a.len() == 0 || b.len() == 0 {
        assert(a.len() == 0 && b.len() == 0 ==> a =~= b);
    } else if a[0] == b[0] {
        if a.drop_first() == b.drop_first() {
            assert(a =~= seq![a[0]] + a.drop_first());
            assert(b =~= seq![b[0]] + b.drop_first());
        }
        lemma_lex_total(a.drop_first(), b.drop_first());
    }
}

/// The order of strings is a strict line: no two texts stand before each
/// other, and of two different texts one stands before the other.
pub proof fn lemma_text_order(a: Seq<char>, b: Seq<char>, c: Seq<char>)
    ensures
        text_before(a, b) ==> !text_before(b, a),
        text_before(a, b) && !text_before(c, b) ==> text_before(a, c),
        a != b ==> text_before(a, b) || text_before(b, a),
{
    if text_before(a, b) {
        lemma_lex_asymmetric(encode_utf8(a), encode_utf8(b));
        if !text_before(c, b) {
            lemma_lex_between(encode_utf8(a), encode_utf8(b), encode_utf8(c));
        }
    }
    if a != b {
        if encode_utf8(a) == encode_utf8(b) {
            lemma_encode_injective(a, b);
        }
        lemma_lex_total(encode_utf8(a), encode_utf8(b));
    }
}

/// Whether `a` stands before `b` in the order of strings.
pub fn before_text(a: &str, b: &str) -> (r: bool)
    ensures
        r == text_before(a@, b@),
{
    let x = a.as_bytes();
    let y = b.as_bytes();
    let mut i: usize = 0;
    while i < x.len() && i < y.len()
        invariant
            x@ == encode_utf8(a@),
            y@ == encode_utf8(b@),
            i <= x@.len(),
            i <= y@.len(),
            forall|k: int| 0 <= k < i ==> x@[k] == y@[k],
        decreases x@.len() - i,
    {
        if x[i] != y[i] {
            proof {
                lemma_lex_skip(x@, y@, i as int);
            }
            return x[i] < y[i];
        }
        i = i + 1;
    }
    proof {
        lemma_lex_skip(x@, y@, i as int);
    }
    i < y.len()
}

/// The number of bytes of a text.
pub fn text_len(s: &str) -> (n: usize)
    ensures
        n == byte_len(s@),
{
    s.as_bytes().len()
}

/// The text up to the byte position `at`, and the rest.
fn split(s: &str, at: usize) -> (r: (&str, &str))
    requires
        is_char_boundary(encode_utf8(s@), at as int),
        at <= byte_len(s@),
    ensures
        r.0@ + r.1@ == s@,
        byte_len(r.0@) == at,
        encode_utf8(r.0@) == encode_utf8(s@).subrange(0, at as int),
        encode_utf8(r.1@) == encode_utf8(s@).subrange(at as int, byte_len(s@) as int),
{
    let r = s.split_at(at);
    proof {
        let b = encode_utf8(s@);
        lemma_encode_concat(r.0@, r.1@);
        assert(encode_utf8(r.0@) + encode_utf8(r.1@) =~= b);
        lemma_encode_injective(r.0@ + r.1@, s@);
    }
    r
}

proof fn lemma_take_is_boundary(s: Seq<char>, n: int)
    requires
        0 <= n <= s.len(),
    ensures
        is_char_boundary(encode_utf8(s), byte_len(s.take(n)) as int),
        byte_len(s.take(n)) <= byte_len(s),
    decreases n,
{
    let b = encode_utf8(s);
    encode_utf8_valid_utf8(s);
    lemma_encode_concat(s.take(n), s.skip(n));
    assert(s =~= s.take(n) + s.skip(n));
    if n == 0 {
        assert(s.take(0) =~= Seq::<char>::empty());
    } else {
        let t = s.drop_first();
        lemma_take_is_boundary(t, n - 1);
        encode_utf8_first_scalar(s);
        assert(pop_first_scalar(b) =~= encode_utf8(t));
        assert(s.take(n).drop_first() =~= t.take(n - 1));
        assert(s.take(n)[0] == s[0]);
    }
}

proof fn lemma_byte_len_positive(s: Seq<char>)
    ensures
        s.len() > 0 ==> byte_len(s) > 0,
{
}

proof fn lemma_byte_len_monotone(s: Seq<char>, m: int, n: int)
    requires
        0 <= m <= n <= s.len(),
    ensures
        byte_len(s.take(m)) <= byte_len(s.take(n)),
        m < n ==> byte_len(s.take(m)) < byte_len(s.take(n)),
{
    let d = s.subrange(m, n);
    lemma_encode_concat(s.take(m), d);
    assert(s.take(n) =~= s.take(m) + d);
    lemma_byte_len_positive(d);
}

proof fn lemma_head_within(s: Seq<char>, budget: nat, n: int)
    requires
        0 <= n <= s.len(),
        byte_len(s.take(n)) <= budget,
        n < s.len() ==> byte_len(s.take(n + 1)) > budget,
    ensures
        head_within(s, budget) == s.take(n),
    decreases s.len(),
{
    assert(s.take(s.len() as int) =~= s);
    if n < s.len() {
        lemma_byte_len_monotone(s, n + 1, s.len() as int);
        let t = s.drop_last();
        assert(t.take(n) =~= s.take(n));
        if n < t.len() {
            assert(t.take(n + 1) =~= s.take(n + 1));
        }
        lemma_head_within(t, budget, n);
    }
}

/// Cutting a text keeps a beginning of it that takes no more than the budget,
/// and one character more would take more.
pub proof fn law_cut_is_the_longest_beginning(s: Seq<char>, budget: nat)
    ensures
        ({
            let kept = head_within(s, budget);
            &&& kept.len() <= s.len()
            &&& kept == s.take(kept.len() as int)
            &&& byte_len(kept) <= budget
            &&& kept.len() < s.len() ==> byte_len(s.take(kept.len() as int + 1)) > budget
        }),
    decreases s.len(),
{
    if byte_len(s) <= budget || s.len() == 0 {
        assert(s.take(s.len() as int) =~= s);
    } else {
        let t = s.drop_last();
        law_cut_is_the_longest_beginning(t, budget);
        let n = head_within(t, budget).len() as int;
        assert(t.take(n) =~= s.take(n));
        if n < t.len() {
            assert(t.take(n + 1) =~= s.take(n + 1));
        } else {
            assert(s.take(n + 1) =~= s);
        }
    }
}

/// Trimming takes white space off both ends and nothing else: what is left stands
/// in the text, neither begins nor ends with white space, and all around it is
/// white space.
pub proof fn law_trimming_takes_white_space_only(s: Seq<char>)
    ensures
        exists|a: int, b: int|
            {
                &&& 0 <= a <= b <= s.len()
                &&& trimmed(s) == #[trigger] s.subrange(a, b)
                &&& is_blank(s.take(a))
                &&& is_blank(s.skip(b))
                &&& a < b ==> !is_white_space(s[a]) && !is_white_space(s[b - 1])
            },
{
    let a = lemma_start_of(s);
    let t = trimmed_start(s);
    let n = lemma_end_of(t);
    let b = a + n;
    assert(t =~= s.skip(a));
    assert(trimmed(s) =~= s.subrange(a, b));
    assert(is_blank(s.skip(b))) by {
        assert forall|i: int| 0 <= i < s.skip(b).len() implies is_white_space(
            #[trigger] s.skip(b)[i],
        ) by {
            assert(t.skip(n)[i] == s.skip(b)[i]);
        }
    }
    if a < b {
        assert(t[n - 1] == s[b - 1]);
        if a < s.len() {
            assert(t[0] == s[a]);
        }
    }
}

/// Trimming the end takes trailing white space and nothing else.
pub proof fn law_trimming_the_end_keeps_the_beginning(s: Seq<char>)
    ensures
        ({
            let n = trimmed_end(s).len() as int;
            &&& n <= s.len()
            &&& trimmed_end(s) == s.take(n)
            &&& is_blank(s.skip(n))
            &&& n > 0 ==> !is_white_space(s[n - 1])
        }),
{
    let n = lemma_end_of(s);
    assert(trimmed_end(s).len() == n);
}

/// Where the trimmed text begins.
proof fn lemma_start_of(s: Seq<char>) -> (a: int)
    ensures
        0 <= a <= s.len(),
        trimmed_start(s) == s.skip(a),
        is_blank(s.take(a)),
        a < s.len() ==> !is_white_space(s[a]),
    decreases s.len(),
{
    if s.len() > 0 && is_white_space(s[0]) {
        let t = s.drop_first();
        let k = lemma_start_of(t);
        assert(t.skip(k) =~= s.skip(k + 1));
        assert forall|i: int| 0 <= i < k + 1 implies is_white_space(#[trigger] s.take(k + 1)[i]) by {
            if i > 0 {
                assert(t.take(k)[i - 1] == s.take(k + 1)[i]);
            }
        }
        if k < t.len() {
            assert(t[k] == s[k + 1]);
        }
        k + 1
    } else {
        assert(s.skip(0) =~= s);
        0
    }
}

/// Where the trimmed text ends.
proof fn lemma_end_of(s: Seq<char>) -> (n: int)
    ensures
        0 <= n <= s.len(),
        trimmed_end(s) == s.take(n),
        is_blank(s.skip(n)),
        n > 0 ==> !is_white_space(s[n - 1]),
    decreases s.len(),
{
    if s.len() > 0 && is_white_space(s.last()) {
        let t = s.drop_last();
        let k = lemma_end_of(t);
        assert(t.take(k) =~= s.take(k));
        assert forall|i: int| 0 <= i < s.len() - k implies is_white_space(
            #[trigger] s.skip(k)[i],
        ) by {
            if i < t.len() - k {
                assert(t.skip(k)[i] == s.skip(k)[i]);
            }
        }
        k
    } else {
        assert(s.take(s.len() as int) =~= s);
        s.len() as int
    }
}

/// The longest beginning of a text that takes at most `budget` bytes.
pub fn cut_within(s: &str, budget: usize) -> (r: &str)
    ensures
        r@ == head_within(s@, budget as nat),
        byte_len(r@) <= budget,
{
    let len = text_len(s);
    let top: usize = if budget < len { budget } else { len };
    let mut cut: usize = top;
    proof {
        encode_utf8_valid_utf8(s@);
        is_char_boundary_start_end_of_seq(encode_utf8(s@));
    }
    while cut > 0 && !s.is_char_boundary(cut)
        invariant
            cut <= top <= byte_len(s@),
            is_char_boundary(encode_utf8(s@), 0),
            forall|k: int|
                cut < k <= top ==> !#[trigger] is_char_boundary(encode_utf8(s@), k),
        decreases cut,
    {
        cut = cut - 1;
    }
    let r = split(s, cut).0;
    proof {
        let n = r@.len() as int;
        assert(s@.take(n) =~= r@);
        if n < s@.len() {
            lemma_take_is_boundary(s@, n + 1);
            lemma_byte_len_monotone(s@, n, n + 1);
            assert(byte_len(s@.take(n + 1)) > cut);
        } else {
            assert(s@.take(n) =~= s@);
        }
        lemma_head_within(s@, budget as nat, n);
    }
    r
}

/// The bytes of `needle` stand in `hay` at the byte position `at`.
spec fn bytes_at(hay: Seq<u8>, needle: Seq<u8>, at: int) -> bool {
    &&& 0 <= at
    &&& at + needle.len() <= hay.len()
    &&& forall|j: int| 0 <= j < needle.len() ==> hay[at + j] == #[trigger] needle[j]
}

proof fn lemma_occurs_bytes(hay: Seq<char>, needle: Seq<char>, at: int)
    requires
        occurs_at(hay, needle, at),
    ensures
        bytes_at(encode_utf8(hay), encode_utf8(needle), byte_len(hay.take(at)) as int),
{
    let head = hay.take(at);
    let rest = hay.skip(at + needle.len());
    assert(hay =~= head + needle + rest);
    lemma_encode_concat(head + needle, rest);
    lemma_encode_concat(head, needle);
}

fn bytes_match(hay: &[u8], needle: &[u8], at: usize) -> (r: bool)
    requires
        at + needle@.len() <= hay@.len(),
    ensures
        r == bytes_at(hay@, needle@, at as int),
{
    let size: usize = hay.len();
    let mut j: usize = 0;
    while j < needle.len()
        invariant
            size == hay@.len(),
            at + needle@.len() <= hay@.len(),
            j <= needle@.len(),
            forall|k: int| 0 <= k < j ==> hay@[at + k] == #[trigger] needle@[k],
        decreases needle@.len() - j,
    {
        if hay[at + j] != needle[j] {
            return false;
        }
        j = j + 1;
    }
    true
}

/// The text before the first place at which `needle` stands, and the text from
/// there on; `None` where it stands nowhere.
pub fn split_at_first<'a>(hay: &'a str, needle: &str) -> (r: Option<(&'a str, &'a str)>)
    requires
        needle@.len() > 0,
    ensures
        match r {
            Some((head, tail)) => {
                &&& head@ + tail@ == hay@
                &&& first_occurs_at(hay@, needle@, head@.len() as int)
            },
            None => forall|k: int| !occurs_at(hay@, needle@, k),
        },
{
    let h = hay.as_bytes();
    let n = needle.as_bytes();
    let mut i: usize = 0;
    proof {
        encode_utf8_valid_utf8(hay@);
        encode_utf8_valid_utf8(needle@);
        lemma_byte_len_positive(needle@);
    }
    while i < h.len() && n.len() <= h.len() - i
        invariant
            h@ == encode_utf8(hay@),
            n@ == encode_utf8(needle@),
            n@.len() > 0,
            valid_utf8(h@),
            valid_utf8(n@),
            i <= h@.len(),
            forall|k: int| 0 <= k < i ==> !bytes_at(h@, n@, k),
        decreases h@.len() - i,
    {
        if bytes_match(h, n, i) {
            proof {
                assert(h@[i + 0] == n@[0]);
                is_char_boundary_iff_not_is_continuation_byte(h@, i as int);
                is_char_boundary_iff_not_is_continuation_byte(n@, 0);
                is_char_boundary_start_end_of_seq(n@);
            }
            let r = split(hay, i);
            proof {
                let head = r.0@;
                let tail = r.1@;
                lemma_prefix_of(tail, needle@);
                assert(hay@.subrange(head.len() as int, (head.len() + needle@.len()) as int)
                    =~= tail.take(needle@.len() as int));
                assert forall|k: int| 0 <= k < head.len() implies !occurs_at(
                    hay@,
                    needle@,
                    k,
                ) by {
                    if occurs_at(hay@, needle@, k) {
                        lemma_occurs_bytes(hay@, needle@, k);
                        lemma_byte_len_monotone(hay@, k, head.len() as int);
                        assert(hay@.take(head.len() as int) =~= head);
                    }
                }
            }
            return Some(r);
        }
        i = i + 1;
    }
    proof {
        assert forall|k: int| !occurs_at(hay@, needle@, k) by {
            if occurs_at(hay@, needle@, k) {
                lemma_occurs_bytes(hay@, needle@, k);
            }
        }
    }
    None
}

proof fn lemma_prefix_of(tail: Seq<char>, needle: Seq<char>)
    requires
        bytes_at(encode_utf8(tail), encode_utf8(needle), 0),
    ensures
        needle.len() <= tail.len(),
        tail.take(needle.len() as int) == needle,
    decreases needle.len(),
{
    if needle.len() == 0 {
        assert(tail.take(0) =~= needle);
    } else {
        let t = encode_utf8(tail);
        let n = encode_utf8(needle);
        lemma_byte_len_positive(needle);
        encode_utf8_first_scalar(needle);
        assert(tail.len() > 0);
        encode_utf8_first_scalar(tail);
        assert(forall|j: int| 0 <= j < n.len() ==> t[0 + j] == #[trigger] n[j]);
        assert(t[0] == n[0]);
        let w = length_of_first_scalar(n);
        assert(length_of_first_scalar(t) == w);
        assert forall|j: int| 0 <= j < w implies t[j] == n[j] by {
            assert(t[0 + j] == n[j]);
        }
        assert(decode_first_scalar(t) == decode_first_scalar(n));
        char_u32_cast(tail[0], decode_first_scalar(t));
        char_u32_cast(needle[0], decode_first_scalar(n));
        assert(tail[0] == needle[0]);
        let tail1 = tail.drop_first();
        let needle1 = needle.drop_first();
        assert forall|j: int| 0 <= j < encode_utf8(needle1).len() implies encode_utf8(tail1)[0 + j]
            == #[trigger] encode_utf8(needle1)[j] by {
            assert(n[w + j] == encode_utf8(needle1)[j]);
            assert(t[0 + (w + j)] == n[w + j]);
        }
        lemma_prefix_of(tail1, needle1);
        assert(tail.take(needle.len() as int) =~= needle) by {
            assert forall|i: int| 0 <= i < needle.len() implies tail[i] == needle[i] by {
                if i > 0 {
                    assert(tail1.take(needle1.len() as int)[i - 1] == needle1[i - 1]);
                }
            }
        }
    }
}

/// The digits of a number.
pub fn decimal_text(n: usize) -> (r: String)
    ensures
        r@ == decimal(n as nat),
    decreases n,
{
    if n < 10 {
        let r = digit_text(n).to_owned();
        assert(r@ =~= decimal(n as nat));
        r
    } else {
        let mut r = decimal_text(n / 10);
        r.append(digit_text(n % 10));
        assert(r@ =~= decimal(n as nat));
        r
    }
}

fn digit_text(n: usize) -> (r: &'static str)
    requires
        n < 10,
    ensures
        r@ == seq![digit(n as nat)],
{
    proof {
        reveal_strlit("0");
        reveal_strlit("1");
        reveal_strlit("2");
        reveal_strlit("3");
        reveal_strlit("4");
        reveal_strlit("5");
        reveal_strlit("6");
        reveal_strlit("7");
        reveal_strlit("8");
        reveal_strlit("9");
    }
    let r = match n {
        0 => "0",
        1 => "1",
        2 => "2",
        3 => "3",
        4 => "4",
        5 => "5",
        6 => "6",
        7 => "7",
        8 => "8",
        _ => "9",
    };
    assert(r@ =~= seq![digit(n as nat)]);
    r
}

/// A text comes before another one where their bytes first differ and its byte is the
/// smaller one, or where it is a beginning of the other one and shorter.
pub proof fn law_texts_are_ordered_by_their_first_difference(a: Seq<char>, b: Seq<char>)
    ensures
        text_before(a, b) <==> exists|k: int|
            {
                &&& 0 <= k <= encode_utf8(a).len()
                &&& k < encode_utf8(b).len()
                &&& #[trigger] encode_utf8(a).take(k) == encode_utf8(b).take(k)
                &&& k == encode_utf8(a).len() || encode_utf8(a)[k] < encode_utf8(b)[k]
            },
{
    lemma_first_difference(encode_utf8(a), encode_utf8(b));
}

proof fn lemma_first_difference(x: Seq<u8>, y: Seq<u8>)
    ensures
        lex_before(x, y) <==> exists|k: int|
            {
                &&& 0 <= k <= x.len()
                &&& k < y.len()
                &&& #[trigger] x.take(k) == y.take(k)
                &&& k == x.len() || x[k] < y[k]
            },
    decreases x.len(),
{
    if y.len() > 0 && x.len() == 0 {
        assert(x.take(0) =~= y.take(0));
    } else if y.len() > 0 && x[0] != y[0] {
        if x[0] < y[0] {
            assert(x.take(0) =~= y.take(0));
        }
        assert forall|k: int| 0 < k <= x.len() && k < y.len() implies #[trigger] x.take(k) != y.take(
            k,
        ) by {
            assert(x.take(k)[0] != y.take(k)[0]);
        }
    } else if y.len() > 0 {
        let (u, v) = (x.drop_first(), y.drop_first());
        lemma_first_difference(u, v);
        if lex_before(u, v) {
            let k = choose|k: int|
                {
                    &&& 0 <= k <= u.len()
                    &&& k < v.len()
                    &&& #[trigger] u.take(k) == v.take(k)
                    &&& k == u.len() || u[k] < v[k]
                };
            assert forall|i: int| 0 <= i < k + 1 implies x[i] == y[i] by {
                if i > 0 {
                    assert(u.take(k)[i - 1] == v.take(k)[i - 1]);
                }
            }
            assert(x.take(k + 1) =~= y.take(k + 1));
        }
        if exists|k: int|
            {
                &&& 0 <= k <= x.len()
                &&& k < y.len()
                &&& #[trigger] x.take(k) == y.take(k)
                &&& k == x.len() || x[k] < y[k]
            } {
            let k = choose|k: int|
                {
                    &&& 0 <= k <= x.len()
                    &&& k < y.len()
                    &&& #[trigger] x.take(k) == y.take(k)
                    &&& k == x.len() || x[k] < y[k]
                };
            assert forall|i: int| 0 <= i < k - 1 implies u[i] == v[i] by {
                assert(x.take(k)[i + 1] == y.take(k)[i + 1]);
            }
            assert(u.take(k - 1) =~= v.take(k - 1));
        }
    }
}

/// The number that a text of digits reads as.
pub open spec fn read_decimal(s: Seq<char>) -> int
    decreases s.len(),
{
    if s.len() == 0 {
        0
    } else {
        read_decimal(s.drop_last()) * 10 + (s.last() as int - '0' as int)
    }
}

/// A number is written in digits that read as it, the first of which is no zero but
/// for the number zero.
pub proof fn law_number_reads_back(n: nat)
    ensures
        read_decimal(decimal(n)) == n,
        decimal(n).len() > 0,
        n > 0 ==> decimal(n)[0] != '0',
        forall|i: int| 0 <= i < decimal(n).len() ==> '0' <= #[trigger] decimal(n)[i] <= '9',
    decreases n,
{
    if n < 10 {
        assert(seq![digit(n)].drop_last() =~= Seq::<char>::empty());
        assert(read_decimal(Seq::<char>::empty()) == 0);
    } else {
        law_number_reads_back(n / 10);
        assert(decimal(n).drop_last() =~= decimal(n / 10));
    }
}

/// A list of texts shows each text, and an optional text shows the text where there is
/// one.
pub proof fn law_texts_are_shown(v: Seq<String>, i: int, o: Option<String>)
    requires
        0 <= i < v.len(),
    ensures
        texts(v).len() == v.len(),
        texts(v)[i] == v[i]@,
        o is Some ==> opt_text(o) == Some(o->0@),
        o is None ==> opt_text(o) is None,
{
}

/// A borrowed text is shown as an owned one is.
pub proof fn law_borrowed_texts_are_shown(v: Seq<&str>, i: int, o: Option<&str>)
    requires
        0 <= i < v.len(),
    ensures
        slices(v).len() == v.len(),
        slices(v)[i] == v[i]@,
        o is Some ==> opt_str(o) == Some(o->0@),
        o is None ==> opt_str(o) is None,
{
}

} // verus!
