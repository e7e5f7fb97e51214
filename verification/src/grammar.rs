//! Finding the parts of a signature in a token sequence.
use vstd::prelude::*;
use crate::token::{
    group_is, ident_is, is_group, is_ident, is_joint_punct, is_punct, joint_punct_is, punct_is,
    toks, Delimiter, Tok, TokenTree,
};

verus! {

/// The `>` at position `i` closes an angle bracket: it is not the end of
/// an arrow `->` or `=>`.
pub open spec fn closes_angle(s: Seq<Tok>, i: int) -> bool {
    &&& is_punct(s[i], '>')
    &&& !(i > 0 && (is_joint_punct(s[i - 1], '-') || is_joint_punct(s[i - 1], '=')))
}

/// Scanning from position `i` with `depth` angle brackets open, the
/// position just after the `>` that closes the outermost one, or the length
/// of `s` if it is never closed.
pub open spec fn angle_end(s: Seq<Tok>, i: int, depth: nat) -> int
    decreases s.len() - i,
{
    if i < 0 || i >= s.len() {
        s.len() as int
    } else if is_punct(s[i], '<') {
        angle_end(s, i + 1, depth + 1)
    } else if closes_angle(s, i) {
        if depth <= 1 {
            i + 1
        } else {
            angle_end(s, i + 1, (depth - 1) as nat)
        }
    } else {
        angle_end(s, i + 1, depth)
    }
}

/// The first position at or after `k` that holds the identifier `w`, or
/// the length of `s`.
pub open spec fn find_word(s: Seq<Tok>, k: int, w: Seq<char>) -> int
    decreases s.len() - k,
{
    if k < 0 || k >= s.len() {
        s.len() as int
    } else if is_ident(s[k], w) {
        k
    } else {
        find_word(s, k + 1, w)
    }
}

/// The position after the outer attributes `#[..]` that start at `i`.
pub open spec fn attrs_end(s: Seq<Tok>, i: int) -> int
    decreases s.len() - i,
{
    if 0 <= i && i + 1 < s.len() && is_punct(s[i], '#') && is_group(s[i + 1], Delimiter::Bracket) {
        attrs_end(s, i + 2)
    } else {
        i
    }
}

/// The position after the inner attributes `#![..]` that start at `i`.
pub open spec fn inner_attrs_end(s: Seq<Tok>, i: int) -> int
    decreases s.len() - i,
{
    if 0 <= i && i + 2 < s.len() && is_punct(s[i], '#') && is_punct(s[i + 1], '!') && is_group(
        s[i + 2],
        Delimiter::Bracket,
    ) {
        inner_attrs_end(s, i + 3)
    } else {
        i
    }
}

/// Bounds of `inner_attrs_end`.
pub proof fn lemma_inner_attrs_end_bounds(s: Seq<Tok>, i: int)
    requires
        0 <= i <= s.len(),
    ensures
        i <= inner_attrs_end(s, i) <= s.len(),
    decreases s.len() - i,
{
    if i + 2 < s.len() && is_punct(s[i], '#') && is_punct(s[i + 1], '!') && is_group(
        s[i + 2],
        Delimiter::Bracket,
    ) {
        lemma_inner_attrs_end_bounds(s, i + 3);
    }
}

/// `angle_end` sees only punctuation: two sequences of one length with the
/// same punctuation at the same places give the same end.
pub proof fn lemma_angle_end_puncts(s: Seq<Tok>, t: Seq<Tok>, i: int, depth: nat)
    requires
        s.len() == t.len(),
        forall|k: int|
            0 <= k < s.len() ==> ((#[trigger] s[k] is Punct || t[k] is Punct) ==> s[k] == t[k]),
    ensures
        angle_end(s, i, depth) == angle_end(t, i, depth),
    decreases s.len() - i,
{
    if 0 <= i < s.len() {
        assert(is_punct(s[i], '<') == is_punct(t[i], '<'));
        assert(closes_angle(s, i) == closes_angle(t, i)) by {
            if i > 0 {
                assert(s[i - 1] is Punct ==> s[i - 1] == t[i - 1]);
            }
        }
        lemma_angle_end_puncts(s, t, i + 1, depth + 1);
        if depth > 1 {
            lemma_angle_end_puncts(s, t, i + 1, (depth - 1) as nat);
        }
        lemma_angle_end_puncts(s, t, i + 1, depth);
    }
}

/// An angle bracket that closes before the end closes with `>`.
pub proof fn lemma_angle_end_closes(s: Seq<Tok>, i: int, depth: nat)
    requires
        0 <= i,
        angle_end(s, i, depth) < s.len(),
    ensures
        angle_end(s, i, depth) >= 1,
        is_punct(s[angle_end(s, i, depth) - 1], '>'),
    decreases s.len() - i,
{
    if i < s.len() {
        if is_punct(s[i], '<') {
            lemma_angle_end_closes(s, i + 1, depth + 1);
        } else if closes_angle(s, i) {
            if depth > 1 {
                lemma_angle_end_closes(s, i + 1, (depth - 1) as nat);
            }
        } else {
            lemma_angle_end_closes(s, i + 1, depth);
        }
    }
}

/// `g` is a simple angle-bracketed list: `<`, tokens without `<` or `>`,
/// and a `>` that is not the end of an arrow `->` or `=>`.
pub open spec fn simple_angle(g: Seq<Tok>) -> bool {
    &&& g.len() >= 2
    &&& is_punct(g[0], '<')
    &&& is_punct(g[g.len() - 1], '>')
    &&& forall|k: int|
        0 < k < g.len() - 1 ==> !is_punct(#[trigger] g[k], '<') && !is_punct(g[k], '>')
    &&& !is_joint_punct(g[g.len() - 2], '-')
    &&& !is_joint_punct(g[g.len() - 2], '=')
}

/// A simple angle-bracketed list that starts at position `i` of `s` ends
/// after its `>`.
pub proof fn lemma_simple_angle_end(s: Seq<Tok>, i: int, g: Seq<Tok>)
    requires
        0 <= i,
        i + g.len() <= s.len(),
        s.subrange(i, i + g.len()) == g,
        simple_angle(g),
    ensures
        angle_end(s, i, 0) == i + g.len(),
{
    let n = g.len() as int;
    assert(s[i] == g[0]);
    lemma_simple_angle_inner(s, i, g, i + 1);
}

/// Inside a simple angle-bracketed list, the scan goes on to its end.
proof fn lemma_simple_angle_inner(s: Seq<Tok>, i: int, g: Seq<Tok>, j: int)
    requires
        0 <= i,
        i + g.len() <= s.len(),
        s.subrange(i, i + g.len()) == g,
        simple_angle(g),
        i + 1 <= j <= i + g.len() - 1,
    ensures
        angle_end(s, j, 1) == i + g.len(),
    decreases i + g.len() - j,
{
    let n = g.len() as int;
    assert(s[j] == g[j - i]);
    assert(s[j - 1] == g[j - 1 - i]);
    if j < i + n - 1 {
        assert(!is_punct(s[j], '<'));
        assert(!closes_angle(s, j));
        lemma_simple_angle_inner(s, i, g, j + 1);
    } else {
        assert(is_punct(s[j], '>'));
        assert(!is_punct(s[j], '<'));
        assert(closes_angle(s, j));
    }
}

/// Bounds of `angle_end`.
pub proof fn lemma_angle_end_bounds(s: Seq<Tok>, i: int, depth: nat)
    requires
        0 <= i <= s.len(),
    ensures
        i <= angle_end(s, i, depth) <= s.len(),
        i < s.len() ==> i < angle_end(s, i, depth),
    decreases s.len() - i,
{
    if i < s.len() {
        if is_punct(s[i], '<') {
            lemma_angle_end_bounds(s, i + 1, depth + 1);
        } else if closes_angle(s, i) {
            if depth > 1 {
                lemma_angle_end_bounds(s, i + 1, (depth - 1) as nat);
            }
        } else {
            lemma_angle_end_bounds(s, i + 1, depth);
        }
    }
}

/// Bounds of `find_word`.
pub proof fn lemma_find_word_bounds(s: Seq<Tok>, k: int, w: Seq<char>)
    requires
        0 <= k <= s.len(),
    ensures
        k <= find_word(s, k, w) <= s.len(),
        find_word(s, k, w) < s.len() ==> is_ident(s[find_word(s, k, w)], w),
        forall|m: int| k <= m < find_word(s, k, w) ==> !is_ident(#[trigger] s[m], w),
    decreases s.len() - k,
{
    if k < s.len() && !is_ident(s[k], w) {
        lemma_find_word_bounds(s, k + 1, w);
    }
}

/// Bounds of `attrs_end`.
pub proof fn lemma_attrs_end_bounds(s: Seq<Tok>, i: int)
    requires
        0 <= i <= s.len(),
    ensures
        i <= attrs_end(s, i) <= s.len(),
        i + 1 < s.len() && is_punct(s[i], '#') && is_group(s[i + 1], Delimiter::Bracket) ==> i + 2
            <= attrs_end(s, i),
    decreases s.len() - i,
{
    if i + 1 < s.len() && is_punct(s[i], '#') && is_group(s[i + 1], Delimiter::Bracket) {
        lemma_attrs_end_bounds(s, i + 2);
    }
}

/// Whether the `>` at position `i` of `v` closes an angle bracket.
pub fn closes_angle_at(v: &Vec<TokenTree>, i: usize) -> (b: bool)
    requires
        i < v.len(),
    ensures
        b == closes_angle(toks(v@), i as int),
{
    punct_is(&v[i], '>') && !(i > 0 && (joint_punct_is(&v[i - 1], '-') || joint_punct_is(
        &v[i - 1],
        '=',
    )))
}

/// The position just after the angle bracket opened at position `start`.
pub fn find_angle_end(v: &Vec<TokenTree>, start: usize) -> (e: usize)
    requires
        start <= v.len(),
    ensures
        e == angle_end(toks(v@), start as int, 0),
        start <= e <= v.len(),
        start < v.len() ==> start < e,
{
    let ghost t = toks(v@);
    proof {
        lemma_angle_end_bounds(t, start as int, 0);
    }
    let mut i = start;
    let mut depth: usize = 0;
    while i < v.len()
        invariant
            start <= i <= v.len(),
            depth <= i,
            t == toks(v@),
            angle_end(t, i as int, depth as nat) == angle_end(t, start as int, 0),
        decreases v.len() - i,
    {
        if punct_is(&v[i], '<') {
            depth = depth + 1;
        } else if closes_angle_at(v, i) {
            if depth <= 1 {
                return i + 1;
            }
            depth = depth - 1;
        }
        i = i + 1;
    }
    i
}

/// The first position at or after `k` that holds the identifier `w`.
pub fn find_word_from(v: &Vec<TokenTree>, k: usize, w: &str) -> (j: usize)
    requires
        k <= v.len(),
    ensures
        j == find_word(toks(v@), k as int, w@),
        k <= j <= v.len(),
{
    let ghost t = toks(v@);
    proof {
        lemma_find_word_bounds(t, k as int, w@);
    }
    let mut j = k;
    while j < v.len()
        invariant
            k <= j <= v.len(),
            t == toks(v@),
            find_word(t, j as int, w@) == find_word(t, k as int, w@),
        decreases v.len() - j,
    {
        if ident_is(&v[j], w) {
            return j;
        }
        j = j + 1;
    }
    j
}

/// The position after the outer attributes at the start of `v`.
pub fn find_attrs_end(v: &Vec<TokenTree>) -> (e: usize)
    ensures
        e == attrs_end(toks(v@), 0),
        e <= v.len(),
{
    find_attrs_end_from(v, 0)
}

/// The position after the outer attributes that start at position `k` of `v`.
pub fn find_attrs_end_from(v: &Vec<TokenTree>, k: usize) -> (e: usize)
    requires
        k <= v.len(),
    ensures
        e == attrs_end(toks(v@), k as int),
        k <= e <= v.len(),
{
    let ghost t = toks(v@);
    proof {
        lemma_attrs_end_bounds(t, k as int);
    }
    let mut i: usize = k;
    while i < v.len() && v.len() - i >= 2 && punct_is(&v[i], '#') && group_is(
        &v[i + 1],
        Delimiter::Bracket,
    )
        invariant
            k <= i <= v.len(),
            t == toks(v@),
            attrs_end(t, i as int) == attrs_end(t, k as int),
        decreases v.len() - i,
    {
        i = i + 2;
    }
    i
}

/// The position after the inner attributes at the start of `v`.
pub fn find_inner_attrs_end(v: &Vec<TokenTree>) -> (e: usize)
    ensures
        e == inner_attrs_end(toks(v@), 0),
        e <= v.len(),
{
    let ghost t = toks(v@);
    proof {
        lemma_inner_attrs_end_bounds(t, 0);
    }
    let mut i: usize = 0;
    while i < v.len() && v.len() - i >= 3 && punct_is(&v[i], '#') && punct_is(&v[i + 1], '!')
        && group_is(&v[i + 2], Delimiter::Bracket)
        invariant
            i <= v.len(),
            t == toks(v@),
            inner_attrs_end(t, i as int) == inner_attrs_end(t, 0),
        decreases v.len() - i,
    {
        i = i + 3;
    }
    i
}


/// `t` is a run of outer attributes: pairs of `#` and a `[..]` group.
pub open spec fn outer_attrs(t: Seq<Tok>) -> bool {
    &&& t.len() % 2 == 0
    &&& forall|k: int|
        0 <= k < t.len() && k % 2 == 0 ==> is_punct(#[trigger] t[k], '#') && is_group(
            t[k + 1],
            Delimiter::Bracket,
        )
}

/// An outer attribute `#[..]` starts `t`.
pub open spec fn starts_with_attr(t: Seq<Tok>) -> bool {
    t.len() >= 2 && is_punct(t[0], '#') && is_group(t[1], Delimiter::Bracket)
}

/// From an even position inside a run of outer attributes, the scan goes
/// on to the end of the run.
proof fn lemma_outer_attrs_skipped(attrs: Seq<Tok>, rest: Seq<Tok>, i: int)
    requires
        outer_attrs(attrs),
        !starts_with_attr(rest),
        0 <= i <= attrs.len(),
        i % 2 == 0,
    ensures
        attrs_end(attrs + rest, i) == attrs.len(),
    decreases attrs.len() - i,
{
    let s = attrs + rest;
    if i < attrs.len() {
        assert(is_punct(attrs[i], '#'));
        assert(s[i] == attrs[i]);
        assert(s[i + 1] == attrs[i + 1]);
        lemma_outer_attrs_skipped(attrs, rest, i + 2);
    } else if s.len() > i + 1 {
        assert(s[i] == rest[0]);
        assert(s[i + 1] == rest[1]);
    }
}

/// The outer attributes that start a token sequence are skipped as a
/// whole: after a run of `#[..]` attributes that the rest does not go on
/// with, `attrs_end` stands at the end of that run.
pub proof fn law_outer_attributes_are_skipped(attrs: Seq<Tok>, rest: Seq<Tok>)
    requires
        outer_attrs(attrs),
        !starts_with_attr(rest),
    ensures
        attrs_end(attrs + rest, 0) == attrs.len(),
{
    lemma_outer_attrs_skipped(attrs, rest, 0);
}

/// Tokens among which no `<` or `>` stands.
pub open spec fn no_angles(t: Seq<Tok>) -> bool {
    forall|k: int| 0 <= k < t.len() ==> !is_punct(#[trigger] t[k], '<') && !is_punct(t[k], '>')
}

/// Tokens without `<` or `>` leave the bracket count as it is.
proof fn lemma_angle_end_skips(s: Seq<Tok>, i: int, j: int, depth: nat)
    requires
        0 <= i <= j <= s.len(),
        forall|k: int| i <= k < j ==> !is_punct(#[trigger] s[k], '<') && !is_punct(s[k], '>'),
    ensures
        angle_end(s, i, depth) == angle_end(s, j, depth),
    decreases j - i,
{
    if i < j {
        assert(!is_punct(s[i], '<'));
        assert(!closes_angle(s, i));
        lemma_angle_end_skips(s, i + 1, j, depth);
    }
}

/// An angle-bracketed list with a list nested in it, as in
/// `<T: Into<U>>` or `<T: AsRef<str>, U>`, ends after its own `>`, not
/// after the `>` of the nested one.
pub proof fn law_nested_angle_list_ends_at_its_own_close(
    s: Seq<Tok>,
    i: int,
    lt: Tok,
    x: Seq<Tok>,
    inner: Seq<Tok>,
    y: Seq<Tok>,
    gt: Tok,
)
    requires
        0 <= i,
        is_punct(lt, '<'),
        no_angles(x),
        simple_angle(inner),
        no_angles(y),
        y.len() > 0 ==> !is_joint_punct(y.last(), '-') && !is_joint_punct(y.last(), '='),
        is_punct(gt, '>'),
        i + x.len() + inner.len() + y.len() + 2 <= s.len(),
        s.subrange(i, i + x.len() + inner.len() + y.len() + 2) == seq![lt] + x + inner + y + seq![gt],
    ensures
        angle_end(s, i, 0) == i + x.len() + inner.len() + y.len() + 2,
{
    let n = x.len() + inner.len() + y.len() + 2;
    let g = seq![lt] + x + inner + y + seq![gt];
    let p = i + 1 + x.len();
    let q = p + inner.len() - 1;
    let r = q + 1 + y.len();
    assert(r == i + n - 1);
    assert forall|k: int| 0 <= k < n implies #[trigger] s[i + k] == g[k] by {
        assert(s.subrange(i, i + n)[k] == s[i + k]);
    }
    assert(s[i] == g[0]);
    assert(angle_end(s, i, 0) == angle_end(s, i + 1, 1));
    assert forall|k: int| i + 1 <= k < p implies !is_punct(#[trigger] s[k], '<') && !is_punct(s[k], '>') by {
        assert(s[i + (k - i)] == g[k - i]);
        assert(g[k - i] == x[k - i - 1]);
    }
    lemma_angle_end_skips(s, i + 1, p, 1);
    assert(s[i + (p - i)] == g[p - i]);
    assert(g[p - i] == inner[0]);
    assert(angle_end(s, p, 1) == angle_end(s, p + 1, 2));
    assert forall|k: int| p + 1 <= k < q implies !is_punct(#[trigger] s[k], '<') && !is_punct(s[k], '>') by {
        assert(s[i + (k - i)] == g[k - i]);
        assert(g[k - i] == inner[k - p]);
        assert(0 < k - p < inner.len() - 1);
    }
    lemma_angle_end_skips(s, p + 1, q, 2);
    assert(s[i + (q - i)] == g[q - i]);
    assert(g[q - i] == inner[inner.len() - 1]);
    assert(s[i + (q - 1 - i)] == g[q - 1 - i]);
    assert(g[q - 1 - i] == inner[inner.len() - 2]);
    assert(closes_angle(s, q));
    assert(angle_end(s, q, 2) == angle_end(s, q + 1, 1));
    assert forall|k: int| q + 1 <= k < r implies !is_punct(#[trigger] s[k], '<') && !is_punct(s[k], '>') by {
        assert(s[i + (k - i)] == g[k - i]);
        assert(g[k - i] == y[k - q - 1]);
    }
    lemma_angle_end_skips(s, q + 1, r, 1);
    assert(s[i + (r - i)] == g[r - i]);
    assert(g[r - i] == gt);
    assert(s[i + (r - 1 - i)] == g[r - 1 - i]);
    if y.len() > 0 {
        assert(g[r - 1 - i] == y.last());
    } else {
        assert(g[r - 1 - i] == inner[inner.len() - 1]);
    }
    assert(closes_angle(s, r));
}

/// `t` is a run of inner attributes: triples of `#`, `!` and a `[..]`
/// group.
pub open spec fn inner_attrs(t: Seq<Tok>) -> bool {
    &&& t.len() % 3 == 0
    &&& forall|k: int|
        0 <= k < t.len() && k % 3 == 0 ==> is_punct(#[trigger] t[k], '#') && is_punct(t[k + 1], '!')
            && is_group(t[k + 2], Delimiter::Bracket)
}

/// An inner attribute `#![..]` starts `t`.
pub open spec fn starts_with_inner_attr(t: Seq<Tok>) -> bool {
    t.len() >= 3 && is_punct(t[0], '#') && is_punct(t[1], '!') && is_group(t[2], Delimiter::Bracket)
}

/// From a position inside a run of inner attributes that starts one, the
/// scan goes on to the end of the run.
proof fn lemma_inner_attrs_skipped(attrs: Seq<Tok>, rest: Seq<Tok>, i: int)
    requires
        inner_attrs(attrs),
        !starts_with_inner_attr(rest),
        0 <= i <= attrs.len(),
        i % 3 == 0,
    ensures
        inner_attrs_end(attrs + rest, i) == attrs.len(),
    decreases attrs.len() - i,
{
    let s = attrs + rest;
    if i < attrs.len() {
        assert(is_punct(attrs[i], '#'));
        assert(s[i] == attrs[i]);
        assert(s[i + 1] == attrs[i + 1]);
        assert(s[i + 2] == attrs[i + 2]);
        lemma_inner_attrs_skipped(attrs, rest, i + 3);
    } else if s.len() > i + 2 {
        assert(s[i] == rest[0]);
        assert(s[i + 1] == rest[1]);
        assert(s[i + 2] == rest[2]);
    }
}

/// The inner attributes that start a token sequence are skipped as a
/// whole: after a run of `#![..]` attributes that the rest does not go on
/// with, `inner_attrs_end` stands at the end of that run.
pub proof fn law_inner_attributes_are_skipped(attrs: Seq<Tok>, rest: Seq<Tok>)
    requires
        inner_attrs(attrs),
        !starts_with_inner_attr(rest),
    ensures
        inner_attrs_end(attrs + rest, 0) == attrs.len(),
{
    lemma_inner_attrs_skipped(attrs, rest, 0);
}

} // verus!
