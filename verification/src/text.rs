//! Character-level text helpers: whitespace classification, first-occurrence
//! searches, trimming and whitespace tokenization, all specified over the
//! `Seq<char>` view of a string.

use vstd::prelude::*;

verus! {

/// The blank characters recognised by the tokenizer and the trimmers:
/// the ASCII whitespace set.
pub open spec fn is_ws(c: char) -> bool {
    c == ' ' || c == '\t' || c == '\n' || c == '\r' || c == '\x0b' || c == '\x0c'
}

/// Runtime test for [`is_ws`].
pub fn is_ws_char(c: char) -> (b: bool)
    ensures
        b == is_ws(c),
{
    c == ' ' || c == '\t' || c == '\n' || c == '\r' || c == '\x0b' || c == '\x0c'
}

/// Character-for-character equality of two string slices.
pub fn str_eq(a: &str, b: &str) -> (r: bool)
    ensures
        r == (a@ == b@),
{
    let an = a.unicode_len();
    let bn = b.unicode_len();
    if an != bn {
        return false;
    }
    let mut i: usize = 0;
    while i < an
        invariant
            an == a@.len(),
            an == b@.len(),
            0 <= i <= an,
            forall|k: int| 0 <= k < i ==> a@[k] == b@[k],
        decreases an - i,
    {
        if a.get_char(i) != b.get_char(i) {
            return false;
        }
        i += 1;
    }
    proof {
        assert(a@ =~= b@);
    }
    true
}

/// Index of the first occurrence of `c` in `s`, or `s.len()` when `c` does
/// not occur.
pub open spec fn first_at(s: Seq<char>, c: char) -> int
    decreases s.len(),
{
    if s.len() == 0 {
        0
    } else if s[0] == c {
        0
    } else {
        1 + first_at(s.drop_first(), c)
    }
}

/// What [`first_at`] returns: a position in bounds, carrying `c` when it
/// is short of the length, with no occurrence before it.
pub proof fn lemma_first_at(s: Seq<char>, c: char)
    ensures
        0 <= first_at(s, c) <= s.len(),
        first_at(s, c) < s.len() ==> s[first_at(s, c)] == c,
        forall|k: int| 0 <= k < first_at(s, c) ==> s[k] != c,
    decreases s.len(),
{
    if s.len() == 0 {
    } else if s[0] == c {
    } else {
        lemma_first_at(s.drop_first(), c);
        assert forall|k: int| 0 <= k < first_at(s, c) implies s[k] != c by {
            if k > 0 {
                assert(s.drop_first()[k - 1] == s[k]);
            }
        }
        if first_at(s, c) < s.len() {
            assert(s.drop_first()[first_at(s, c) - 1] == s[first_at(s, c)]);
        }
    }
}

/// Runtime search matching [`first_at`].
pub fn find_char(s: &str, c: char) -> (r: usize)
    ensures
        r == first_at(s@, c),
{
    proof {
        lemma_first_at(s@, c);
    }
    let n = s.unicode_len();
    let mut i: usize = 0;
    while i < n
        invariant
            n == s@.len(),
            0 <= i <= n,
            forall|k: int| 0 <= k < i ==> s@[k] != c,
            0 <= first_at(s@, c) <= n,
            first_at(s@, c) < n ==> s@[first_at(s@, c)] == c,
            forall|k: int| 0 <= k < first_at(s@, c) ==> s@[k] != c,
        decreases n - i,
    {
        if s.get_char(i) == c {
            return i;
        }
        i += 1;
    }
    n
}

/// Index of the first occurrence of the two-character pattern `c1 c2`, or
/// `s.len()` when the pattern does not occur.
pub open spec fn first_pair(s: Seq<char>, c1: char, c2: char) -> int
    decreases s.len(),
{
    if s.len() < 2 {
        s.len() as int
    } else if s[0] == c1 && s[1] == c2 {
        0
    } else {
        1 + first_pair(s.drop_first(), c1, c2)
    }
}

/// What [`first_pair`] returns: in bounds, the pattern at it when short
/// of the length, and no occurrence before it.
pub proof fn lemma_first_pair(s: Seq<char>, c1: char, c2: char)
    ensures
        0 <= first_pair(s, c1, c2) <= s.len(),
        first_pair(s, c1, c2) < s.len() ==> first_pair(s, c1, c2) + 2 <= s.len()
            && s[first_pair(s, c1, c2)] == c1 && s[first_pair(s, c1, c2) + 1] == c2,
        forall|k: int|
            0 <= k < first_pair(s, c1, c2) && k + 1 < s.len() ==> !(#[trigger] s[k] == c1 && s[k + 1] == c2),
    decreases s.len(),
{
    if s.len() < 2 {
    } else if s[0] == c1 && s[1] == c2 {
    } else {
        lemma_first_pair(s.drop_first(), c1, c2);
        assert forall|k: int|
            0 <= k < first_pair(s, c1, c2) && k + 1 < s.len() implies !(#[trigger] s[k] == c1
            && s[k + 1] == c2) by {
            if k > 0 {
                assert(s.drop_first()[k - 1] == s[k]);
                assert(s.drop_first()[k] == s[k + 1]);
            }
        }
        if first_pair(s, c1, c2) < s.len() {
            let f = first_pair(s, c1, c2);
            assert(s.drop_first()[f - 1] == s[f]);
            assert(s.drop_first()[f] == s[f + 1]);
        }
    }
}

/// Runtime search matching [`first_pair`].
pub fn find_pair(s: &str, c1: char, c2: char) -> (r: usize)
    ensures
        r == first_pair(s@, c1, c2),
{
    proof {
        lemma_first_pair(s@, c1, c2);
    }
    let n = s.unicode_len();
    if n < 2 {
        return n;
    }
    let mut i: usize = 0;
    while i + 1 < n
        invariant
            n == s@.len(),
            2 <= n,
            0 <= i <= n - 1,
            forall|k: int| 0 <= k < i && k + 1 < n ==> !(#[trigger] s@[k] == c1 && s@[k + 1] == c2),
            0 <= first_pair(s@, c1, c2) <= n,
            first_pair(s@, c1, c2) < n ==> first_pair(s@, c1, c2) + 2 <= n
                && s@[first_pair(s@, c1, c2)] == c1 && s@[first_pair(s@, c1, c2) + 1] == c2,
            forall|k: int|
                0 <= k < first_pair(s@, c1, c2) && k + 1 < n ==> !(#[trigger] s@[k] == c1 && s@[k + 1] == c2),
        decreases n - i,
    {
        if s.get_char(i) == c1 && s.get_char(i + 1) == c2 {
            return i;
        }
        i += 1;
    }
    n
}

/// Index of the first occurrence of the three-character pattern `c1 c2 c3`,
/// or `s.len()` when the pattern does not occur.
pub open spec fn first_triple(s: Seq<char>, c1: char, c2: char, c3: char) -> int
    decreases s.len(),
{
    if s.len() < 3 {
        s.len() as int
    } else if s[0] == c1 && s[1] == c2 && s[2] == c3 {
        0
    } else {
        1 + first_triple(s.drop_first(), c1, c2, c3)
    }
}

/// What [`first_triple`] returns: in bounds, the pattern at it when
/// short of the length, and no occurrence before it.
pub proof fn lemma_first_triple(s: Seq<char>, c1: char, c2: char, c3: char)
    ensures
        0 <= first_triple(s, c1, c2, c3) <= s.len(),
        first_triple(s, c1, c2, c3) < s.len() ==> first_triple(s, c1, c2, c3) + 3 <= s.len()
            && s[first_triple(s, c1, c2, c3)] == c1 && s[first_triple(s, c1, c2, c3) + 1] == c2
            && s[first_triple(s, c1, c2, c3) + 2] == c3,
        forall|k: int|
            0 <= k < first_triple(s, c1, c2, c3) && k + 2 < s.len() ==> !(#[trigger] s[k] == c1
                && s[k + 1] == c2 && s[k + 2] == c3),
    decreases s.len(),
{
    if s.len() < 3 {
    } else if s[0] == c1 && s[1] == c2 && s[2] == c3 {
    } else {
        lemma_first_triple(s.drop_first(), c1, c2, c3);
        assert forall|k: int|
            0 <= k < first_triple(s, c1, c2, c3) && k + 2 < s.len() implies !(#[trigger] s[k]
            == c1 && s[k + 1] == c2 && s[k + 2] == c3) by {
            if k > 0 {
                assert(s.drop_first()[k - 1] == s[k]);
                assert(s.drop_first()[k] == s[k + 1]);
                assert(s.drop_first()[k + 1] == s[k + 2]);
            }
        }
        if first_triple(s, c1, c2, c3) < s.len() {
            let f = first_triple(s, c1, c2, c3);
            assert(s.drop_first()[f - 1] == s[f]);
            assert(s.drop_first()[f] == s[f + 1]);
            assert(s.drop_first()[f + 1] == s[f + 2]);
        }
    }
}

/// Runtime search matching [`first_triple`].
pub fn find_triple(s: &str, c1: char, c2: char, c3: char) -> (r: usize)
    ensures
        r == first_triple(s@, c1, c2, c3),
{
    proof {
        lemma_first_triple(s@, c1, c2, c3);
    }
    let n = s.unicode_len();
    if n < 3 {
        return n;
    }
    let mut i: usize = 0;
    while i + 2 < n
        invariant
            n == s@.len(),
            3 <= n,
            0 <= i <= n - 2,
            forall|k: int|
                0 <= k < i && k + 2 < n ==> !(#[trigger] s@[k] == c1 && s@[k + 1] == c2 && s@[k + 2] == c3),
            0 <= first_triple(s@, c1, c2, c3) <= n,
            first_triple(s@, c1, c2, c3) < n ==> first_triple(s@, c1, c2, c3) + 3 <= n
                && s@[first_triple(s@, c1, c2, c3)] == c1
                && s@[first_triple(s@, c1, c2, c3) + 1] == c2
                && s@[first_triple(s@, c1, c2, c3) + 2] == c3,
            forall|k: int|
                0 <= k < first_triple(s@, c1, c2, c3) && k + 2 < n ==> !(#[trigger] s@[k] == c1
                    && s@[k + 1] == c2 && s@[k + 2] == c3),
        decreases n - i,
    {
        if s.get_char(i) == c1 && s.get_char(i + 1) == c2 && s.get_char(i + 2) == c3 {
            return i;
        }
        i += 1;
    }
    n
}

/// Index of the first whitespace character, or `s.len()` when there is none.
pub open spec fn first_ws(s: Seq<char>) -> int
    decreases s.len(),
{
    if s.len() == 0 {
        0
    } else if is_ws(s[0]) {
        0
    } else {
        1 + first_ws(s.drop_first())
    }
}

/// What [`first_ws`] returns: in bounds, a blank at it when short of the
/// length, and nothing blank before it.
pub proof fn lemma_first_ws(s: Seq<char>)
    ensures
        0 <= first_ws(s) <= s.len(),
        first_ws(s) < s.len() ==> is_ws(s[first_ws(s)]),
        forall|k: int| 0 <= k < first_ws(s) ==> !is_ws(#[trigger] s[k]),
    decreases s.len(),
{
    if s.len() == 0 {
    } else if is_ws(s[0]) {
    } else {
        lemma_first_ws(s.drop_first());
        assert forall|k: int| 0 <= k < first_ws(s) implies !is_ws(#[trigger] s[k]) by {
            if k > 0 {
                assert(s.drop_first()[k - 1] == s[k]);
            }
        }
        if first_ws(s) < s.len() {
            assert(s.drop_first()[first_ws(s) - 1] == s[first_ws(s)]);
        }
    }
}

/// Index of the first character that is not whitespace, or `s.len()` when
/// all of `s` is whitespace.
pub open spec fn first_non_ws(s: Seq<char>) -> int
    decreases s.len(),
{
    if s.len() == 0 {
        0
    } else if !is_ws(s[0]) {
        0
    } else {
        1 + first_non_ws(s.drop_first())
    }
}

/// What [`first_non_ws`] returns: in bounds, nothing blank at it when
/// short of the length, and only blanks before it.
pub proof fn lemma_first_non_ws(s: Seq<char>)
    ensures
        0 <= first_non_ws(s) <= s.len(),
        first_non_ws(s) < s.len() ==> !is_ws(s[first_non_ws(s)]),
        forall|k: int| 0 <= k < first_non_ws(s) ==> is_ws(#[trigger] s[k]),
    decreases s.len(),
{
    if s.len() == 0 {
    } else if !is_ws(s[0]) {
    } else {
        lemma_first_non_ws(s.drop_first());
        assert forall|k: int| 0 <= k < first_non_ws(s) implies is_ws(#[trigger] s[k]) by {
            if k > 0 {
                assert(s.drop_first()[k - 1] == s[k]);
            }
        }
        if first_non_ws(s) < s.len() {
            assert(s.drop_first()[first_non_ws(s) - 1] == s[first_non_ws(s)]);
        }
    }
}

/// Number of whitespace characters at the end of `s`.
pub open spec fn trail_ws(s: Seq<char>) -> int
    decreases s.len(),
{
    if s.len() == 0 {
        0
    } else if is_ws(s.last()) {
        1 + trail_ws(s.drop_last())
    } else {
        0
    }
}

/// What [`trail_ws`] counts: only blanks inside the trailing run, and
/// nothing blank just before it.
pub proof fn lemma_trail_ws(s: Seq<char>)
    ensures
        0 <= trail_ws(s) <= s.len(),
        trail_ws(s) < s.len() ==> !is_ws(s[s.len() - 1 - trail_ws(s)]),
        forall|k: int| s.len() - trail_ws(s) <= k < s.len() ==> is_ws(#[trigger] s[k]),
    decreases s.len(),
{
    if s.len() == 0 {
    } else if is_ws(s.last()) {
        lemma_trail_ws(s.drop_last());
        assert forall|k: int| s.len() - trail_ws(s) <= k < s.len() implies is_ws(
            #[trigger] s[k],
        ) by {
            if k < s.len() - 1 {
                assert(s.drop_last()[k] == s[k]);
            }
        }
        if trail_ws(s) < s.len() {
            assert(s.drop_last()[s.len() - 1 - trail_ws(s)] == s[s.len() - 1 - trail_ws(s)]);
        }
    } else {
    }
}

/// Number of `/` characters at the start of `s`.
pub open spec fn lead_slashes(s: Seq<char>) -> int
    decreases s.len(),
{
    if s.len() == 0 {
        0
    } else if s[0] == '/' {
        1 + lead_slashes(s.drop_first())
    } else {
        0
    }
}

/// What [`lead_slashes`] counts: only slashes inside the leading run,
/// and no slash just after it.
pub proof fn lemma_lead_slashes(s: Seq<char>)
    ensures
        0 <= lead_slashes(s) <= s.len(),
        lead_slashes(s) < s.len() ==> s[lead_slashes(s)] != '/',
        forall|k: int| 0 <= k < lead_slashes(s) ==> #[trigger] s[k] == '/',
    decreases s.len(),
{
    if s.len() == 0 {
    } else if s[0] == '/' {
        lemma_lead_slashes(s.drop_first());
        assert forall|k: int| 0 <= k < lead_slashes(s) implies #[trigger] s[k] == '/' by {
            if k > 0 {
                assert(s.drop_first()[k - 1] == s[k]);
            }
        }
        if lead_slashes(s) < s.len() {
            assert(s.drop_first()[lead_slashes(s) - 1] == s[lead_slashes(s)]);
        }
    } else {
    }
}

/// Number of `/` characters at the end of `s`.
pub open spec fn trail_slashes(s: Seq<char>) -> int
    decreases s.len(),
{
    if s.len() == 0 {
        0
    } else if s.last() == '/' {
        1 + trail_slashes(s.drop_last())
    } else {
        0
    }
}

/// What [`trail_slashes`] counts: only slashes inside the trailing run,
/// and no slash just before it.
pub proof fn lemma_trail_slashes(s: Seq<char>)
    ensures
        0 <= trail_slashes(s) <= s.len(),
        trail_slashes(s) < s.len() ==> s[s.len() - 1 - trail_slashes(s)] != '/',
        forall|k: int| s.len() - trail_slashes(s) <= k < s.len() ==> #[trigger] s[k] == '/',
    decreases s.len(),
{
    if s.len() == 0 {
    } else if s.last() == '/' {
        lemma_trail_slashes(s.drop_last());
        assert forall|k: int| s.len() - trail_slashes(s) <= k < s.len() implies #[trigger] s[k]
            == '/' by {
            if k < s.len() - 1 {
                assert(s.drop_last()[k] == s[k]);
            }
        }
        if trail_slashes(s) < s.len() {
            assert(s.drop_last()[s.len() - 1 - trail_slashes(s)] == s[s.len() - 1 - trail_slashes(
                s,
            )]);
        }
    } else {
    }
}

/// `s` with leading and trailing whitespace removed.
pub open spec fn trim_spec(s: Seq<char>) -> Seq<char> {
    if first_non_ws(s) == s.len() {
        Seq::<char>::empty()
    } else {
        s.subrange(first_non_ws(s), s.len() - trail_ws(s))
    }
}

/// `s` with leading and trailing `/` characters removed.
pub open spec fn trim_slashes_spec(s: Seq<char>) -> Seq<char> {
    if lead_slashes(s) == s.len() {
        Seq::<char>::empty()
    } else {
        s.subrange(lead_slashes(s), s.len() - trail_slashes(s))
    }
}

/// Runtime trim matching [`trim_spec`].
pub fn trim(s: &str) -> (r: &str)
    ensures
        r@ == trim_spec(s@),
{
    proof {
        lemma_first_non_ws(s@);
        lemma_trail_ws(s@);
    }
    let n = s.unicode_len();
    let mut a: usize = 0;
    while a < n && is_ws_char(s.get_char(a))
        invariant
            n == s@.len(),
            0 <= a <= n,
            forall|k: int| 0 <= k < a ==> is_ws(#[trigger] s@[k]),
            0 <= first_non_ws(s@) <= n,
            first_non_ws(s@) < n ==> !is_ws(s@[first_non_ws(s@)]),
            forall|k: int| 0 <= k < first_non_ws(s@) ==> is_ws(#[trigger] s@[k]),
        decreases n - a,
    {
        a += 1;
    }
    assert(a == first_non_ws(s@));
    if a == n {
        let r = s.substring_char(0, 0);
        proof {
            assert(r@ =~= trim_spec(s@));
        }
        return r;
    }
    let mut b: usize = n;
    while b > 0 && is_ws_char(s.get_char(b - 1))
        invariant
            n == s@.len(),
            0 <= b <= n,
            forall|k: int| b <= k < n ==> is_ws(#[trigger] s@[k]),
            0 <= trail_ws(s@) <= n,
            trail_ws(s@) < n ==> !is_ws(s@[n - 1 - trail_ws(s@)]),
            forall|k: int| n - trail_ws(s@) <= k < n ==> is_ws(#[trigger] s@[k]),
        decreases b,
    {
        b -= 1;
    }
    assert(b == n - trail_ws(s@));
    assert(a < b) by {
        if b <= a {
            assert(is_ws(s@[a as int]));
        }
    }
    s.substring_char(a, b)
}

/// Runtime trim matching [`trim_slashes_spec`].
pub fn trim_slashes(s: &str) -> (r: &str)
    ensures
        r@ == trim_slashes_spec(s@),
{
    proof {
        lemma_lead_slashes(s@);
        lemma_trail_slashes(s@);
    }
    let n = s.unicode_len();
    let mut a: usize = 0;
    while a < n && s.get_char(a) == '/'
        invariant
            n == s@.len(),
            0 <= a <= n,
            forall|k: int| 0 <= k < a ==> #[trigger] s@[k] == '/',
            0 <= lead_slashes(s@) <= n,
            lead_slashes(s@) < n ==> s@[lead_slashes(s@)] != '/',
            forall|k: int| 0 <= k < lead_slashes(s@) ==> #[trigger] s@[k] == '/',
        decreases n - a,
    {
        a += 1;
    }
    assert(a == lead_slashes(s@));
    if a == n {
        let r = s.substring_char(0, 0);
        proof {
            assert(r@ =~= trim_slashes_spec(s@));
        }
        return r;
    }
    let mut b: usize = n;
    while b > 0 && s.get_char(b - 1) == '/'
        invariant
            n == s@.len(),
            0 <= b <= n,
            forall|k: int| b <= k < n ==> #[trigger] s@[k] == '/',
            0 <= trail_slashes(s@) <= n,
            trail_slashes(s@) < n ==> s@[n - 1 - trail_slashes(s@)] != '/',
            forall|k: int| n - trail_slashes(s@) <= k < n ==> #[trigger] s@[k] == '/',
        decreases b,
    {
        b -= 1;
    }
    assert(b == n - trail_slashes(s@));
    assert(a < b) by {
        if b <= a {
            assert(s@[a as int] == '/');
        }
    }
    s.substring_char(a, b)
}

/// The segments of `s` between occurrences of `c`, in order; with no
/// occurrence, `s` itself is the single segment.
pub open spec fn split_spec(s: Seq<char>, c: char) -> Seq<Seq<char>>
    decreases s.len(),
    via split_spec_dec
{
    let j = first_at(s, c);
    if j == s.len() {
        seq![s]
    } else {
        seq![s.take(j)] + split_spec(s.skip(j + 1), c)
    }
}

#[via_fn]
proof fn split_spec_dec(s: Seq<char>, c: char) {
    lemma_first_at(s, c);
}

/// The views of a sequence of strings.
pub open spec fn views_of(v: Seq<String>) -> Seq<Seq<char>> {
    v.map_values(|x: String| x@)
}

/// The whitespace-separated tokens of `s`, in order; separators are dropped
/// and every token is non-empty.
pub open spec fn tokens_spec(s: Seq<char>) -> Seq<Seq<char>>
    decreases s.len(),
    via tokens_spec_dec
{
    if s.len() == 0 {
        Seq::<Seq<char>>::empty()
    } else if is_ws(s[0]) {
        tokens_spec(s.drop_first())
    } else {
        seq![s.take(first_ws(s))] + tokens_spec(s.skip(first_ws(s)))
    }
}

#[via_fn]
proof fn tokens_spec_dec(s: Seq<char>) {
    if s.len() > 0 && !is_ws(s[0]) {
        lemma_first_ws(s);
    }
}

/// A non-empty whitespace-free prefix, followed by nothing or by a blank,
/// is read as one token.
pub proof fn lemma_tokens_prefix(t: Seq<char>, rest: Seq<char>)
    requires
        t.len() > 0,
        forall|k: int| 0 <= k < t.len() ==> !is_ws(#[trigger] t[k]),
        rest.len() == 0 || is_ws(rest[0]),
    ensures
        tokens_spec(t + rest) == seq![t] + tokens_spec(rest),
{
    let s = t + rest;
    lemma_first_ws(s);
    assert(s[0] == t[0]);
    assert(first_ws(s) == t.len()) by {
        if first_ws(s) < t.len() {
            assert(s[first_ws(s)] == t[first_ws(s)]);
        }
        if first_ws(s) > t.len() {
            assert(rest.len() > 0);
            assert(s[t.len() as int] == rest[0]);
        }
    }
    assert(s.take(t.len() as int) =~= t);
    assert(s.skip(t.len() as int) =~= rest);
}

/// A leading blank adds no token.
pub proof fn lemma_tokens_skip_blank(rest: Seq<char>, c: char)
    requires
        is_ws(c),
    ensures
        tokens_spec(seq![c] + rest) == tokens_spec(rest),
{
    let s = seq![c] + rest;
    assert(s[0] == c);
    assert(s.drop_first() =~= rest);
}

/// Runtime search matching [`first_ws`].
pub fn find_first_ws(s: &str) -> (r: usize)
    ensures
        r == first_ws(s@),
{
    proof {
        lemma_first_ws(s@);
    }
    let n = s.unicode_len();
    let mut i: usize = 0;
    while i < n
        invariant
            n == s@.len(),
            0 <= i <= n,
            forall|k: int| 0 <= k < i ==> !is_ws(#[trigger] s@[k]),
            0 <= first_ws(s@) <= n,
            first_ws(s@) < n ==> is_ws(s@[first_ws(s@)]),
            forall|k: int| 0 <= k < first_ws(s@) ==> !is_ws(#[trigger] s@[k]),
        decreases n - i,
    {
        if is_ws_char(s.get_char(i)) {
            return i;
        }
        i += 1;
    }
    n
}

/// Splits `s` into its whitespace-separated tokens, as [`tokens_spec`] lists
/// them.
pub fn split_whitespace_vec(s: &str) -> (r: Vec<String>)
    ensures
        views_of(r@) == tokens_spec(s@),
    decreases s@.len(),
{
    let n = s.unicode_len();
    if n == 0 {
        let r = Vec::<String>::new();
        proof {
            assert(views_of(r@) =~= tokens_spec(s@));
        }
        return r;
    }
    if is_ws_char(s.get_char(0)) {
        let rest = s.substring_char(1, n);
        proof {
            assert(rest@ =~= s@.drop_first());
        }
        let r = split_whitespace_vec(rest);
        return r;
    }
    proof {
        lemma_first_ws(s@);
    }
    let f = find_first_ws(s);
    let tok: String = s.substring_char(0, f).to_owned();
    let rest = s.substring_char(f, n);
    proof {
        assert(tok@ =~= s@.take(first_ws(s@)));
        assert(rest@ =~= s@.skip(first_ws(s@)));
    }
    let mut r = split_whitespace_vec(rest);
    let ghost r0v = r@;
    r.insert(0, tok);
    proof {
        assert(views_of(r@) =~= seq![tok@] + views_of(r0v)) by {
            assert(r@ == r0v.insert(0, tok));
            assert forall|k: int| 0 <= k < r@.len() implies views_of(r@)[k] == (seq![tok@]
                + views_of(r0v))[k] by {
                if k == 0 {
                    assert(r@[0] == tok);
                } else {
                    assert(r@[k] == r0v[k - 1]);
                }
            }
        }
    }
    r
}

/// Splits `s` at every occurrence of `c`, as [`split_spec`] lists the
/// segments.
pub fn split_char_vec(s: &str, c: char) -> (r: Vec<String>)
    ensures
        views_of(r@) == split_spec(s@, c),
    decreases s@.len(),
{
    proof {
        lemma_first_at(s@, c);
    }
    let n = s.unicode_len();
    let j = find_char(s, c);
    if j == n {
        let mut r = Vec::<String>::new();
        r.push(s.to_owned());
        proof {
            assert(views_of(r@) =~= seq![s@]);
        }
        r
    } else {
        let seg: String = s.substring_char(0, j).to_owned();
        let rest = s.substring_char(j + 1, n);
        proof {
            assert(seg@ =~= s@.take(first_at(s@, c)));
            assert(rest@ =~= s@.skip(first_at(s@, c) + 1));
        }
        let mut r = split_char_vec(rest, c);
        let ghost r0v = r@;
        r.insert(0, seg);
        proof {
            assert(views_of(r@) =~= seq![seg@] + views_of(r0v)) by {
                assert(r@ == r0v.insert(0, seg));
                assert forall|k: int| 0 <= k < r@.len() implies views_of(r@)[k] == (seq![seg@]
                    + views_of(r0v))[k] by {
                    if k == 0 {
                        assert(r@[0] == seg);
                    } else {
                        assert(r@[k] == r0v[k - 1]);
                    }
                }
            }
        }
        r
    }
}

} // verus!
