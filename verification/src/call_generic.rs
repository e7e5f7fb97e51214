//! `#[call_generic]`: calling the flavour of a function that matches the
//! flavour of the caller.
//!
//! A function call `f(..)` or method call `x.m(..)` marked with the
//! attribute `#[call_generic]` stands for
//! `if _async { f_async(..).await } else { f(..) }` (and the same with
//! `m_async`). The attribute is recognised by the last segment of its path.
//! An attribute left anywhere else is an error. Tokens inside macro
//! invocations are left as they are.
use vstd::prelude::*;
use crate::desugar_if_async::{
    desugar, desugar_tree, is_macro_body, is_marker, law_marker_selects_branch,
    law_unmarked_tokens_unchanged, macro_body_at, mentions_marker_from, tok_mentions_marker,
};
use crate::error::{error_view, macro_error, MacroError};
use crate::grammar::{
    angle_end, attrs_end, find_angle_end, find_attrs_end_from, lemma_angle_end_bounds,
    lemma_attrs_end_bounds, lemma_simple_angle_end, simple_angle,
};
use crate::token::{
    append_range, copy_tree, group_is, group_stream, ident_is, is_group, is_ident, is_joint_punct,
    is_keyword, is_keyword_name, is_punct, joint_punct_is, name_is, new_ident, punct_is, push_tree,
    span_id, span_of, tok, toks, Delimiter, Tok, TokenTree, CALL_SITE,
};

verus! {

/// The message for an attribute that marks no call.
pub open spec fn misplaced_message() -> Seq<char> {
    "call_generic must be used on a method call or a function call."@
}

/// The identifier of the last segment of the path `a::b::c` that starts at
/// position `k` of `c`.
pub open spec fn path_last_from(c: Seq<Tok>, k: int) -> Option<Seq<char>>
    decreases c.len() - k,
{
    if 0 <= k < c.len() && c[k] is Ident {
        if k + 2 < c.len() && is_joint_punct(c[k + 1], ':') && is_punct(c[k + 2], ':') {
            path_last_from(c, k + 3)
        } else {
            Some(c[k]->Ident_name)
        }
    } else {
        None
    }
}

/// Two colons `::` stand at position `k`.
pub open spec fn is_colons(s: Seq<Tok>, k: int) -> bool {
    0 <= k && k + 1 < s.len() && is_joint_punct(s[k], ':') && is_punct(s[k + 1], ':')
}

/// The identifier of the last segment of the path of an attribute whose
/// bracketed contents are `c`.
pub open spec fn attr_path_last(c: Seq<Tok>) -> Option<Seq<char>> {
    path_last_from(
        c,
        if is_colons(c, 0) {
            2
        } else {
            0
        },
    )
}

/// `t` is the bracketed part of a `call_generic` attribute.
pub open spec fn is_call_generic_group(t: Tok) -> bool {
    is_group(t, Delimiter::Bracket) && attr_path_last(group_stream(t)) == Some("call_generic"@)
}

/// An outer attribute `#[..]` starts at position `i`.
pub open spec fn outer_attr_at(s: Seq<Tok>, i: int) -> bool {
    0 <= i && i + 1 < s.len() && is_punct(s[i], '#') && is_group(s[i + 1], Delimiter::Bracket)
}

/// An outer `call_generic` attribute starts at position `i`.
pub open spec fn call_generic_attr_at(s: Seq<Tok>, i: int) -> bool {
    outer_attr_at(s, i) && is_call_generic_group(s[i + 1])
}

/// An outer or inner `call_generic` attribute starts at position `i`.
pub open spec fn call_generic_head_at(s: Seq<Tok>, i: int) -> bool {
    ||| call_generic_attr_at(s, i)
    ||| (0 <= i && i + 2 < s.len() && is_punct(s[i], '#') && is_punct(s[i + 1], '!')
        && is_call_generic_group(s[i + 2]))
}

/// The run of attributes from `k` to `e` holds a `call_generic` one.
pub open spec fn run_has_call_generic(s: Seq<Tok>, k: int, e: int) -> bool
    decreases e - k,
{
    if k < 0 || k + 1 >= e {
        false
    } else {
        call_generic_attr_at(s, k) || run_has_call_generic(s, k + 2, e)
    }
}

/// The run of attributes from `k` to `e` without its `call_generic` ones.
pub open spec fn run_without_call_generic(s: Seq<Tok>, k: int, e: int) -> Seq<Tok>
    decreases e - k,
{
    if k < 0 || k + 1 >= e {
        Seq::empty()
    } else {
        (if call_generic_attr_at(s, k) {
            Seq::empty()
        } else {
            seq![s[k], s[k + 1]]
        }) + run_without_call_generic(s, k + 2, e)
    }
}

/// `t` can start a path: an identifier that is no keyword, or `self`,
/// `Self`, `super` or `crate`.
pub open spec fn is_path_ident(t: Tok) -> bool {
    t matches Tok::Ident { name, .. } && (!is_keyword(name) || name == "self"@ || name == "Self"@
        || name == "super"@ || name == "crate"@)
}

/// The rest of a path after position `m`, whose last identifier so far is
/// at `last`: further `::name` and `::<..>` segments. Gives the end of the
/// path and the position of its last identifier.
pub open spec fn path_rest(s: Seq<Tok>, m: int, last: int) -> (int, int)
    decreases s.len() - m,
{
    if 0 <= m && is_colons(s, m) && m + 2 < s.len() {
        if is_path_ident(s[m + 2]) {
            path_rest(s, m + 3, m + 2)
        } else if is_punct(s[m + 2], '<') {
            proof {
                lemma_angle_end_bounds(s, m + 2, 0);
            }
            path_rest(s, angle_end(s, m + 2, 0), last)
        } else {
            (m, last)
        }
    } else {
        (m, last)
    }
}

/// Where the path that the path expression at `k` starts with begins its
/// first identifier: after a leading `::`, or after a qualified `<..>::`.
pub open spec fn path_first_ident(s: Seq<Tok>, k: int) -> int {
    if is_colons(s, k) {
        k + 2
    } else if 0 <= k < s.len() && is_punct(s[k], '<') && is_colons(s, angle_end(s, k, 0)) {
        angle_end(s, k, 0) + 2
    } else {
        k
    }
}

/// The path at position `k`, if one starts there: its end and the position
/// of its last identifier.
pub open spec fn path_atom(s: Seq<Tok>, k: int) -> Option<(int, int)> {
    let k1 = path_first_ident(s, k);
    if 0 <= k1 < s.len() && is_path_ident(s[k1]) {
        Some(path_rest(s, k1 + 1, k1))
    } else {
        None
    }
}

/// The kind of a postfix part of an expression.
#[derive(Clone, Copy, Debug, PartialEq, Eq, Structural)]
pub enum TrailerKind {
    /// A call `( .. )`.
    Call,
    /// A method call `.name( .. )` or `.name::<..>( .. )`.
    Method,
    /// A field, index, `?` or `.await`.
    Other,
}

/// The postfix part at position `k`, if there is one: where it ends, its
/// kind, and (for a method call) the position of the method's name.
pub open spec fn trailer_at(s: Seq<Tok>, k: int) -> Option<(int, TrailerKind, int)> {
    if k < 0 || k >= s.len() {
        None
    } else if is_group(s[k], Delimiter::Parenthesis) {
        Some((k + 1, TrailerKind::Call, k))
    } else if is_group(s[k], Delimiter::Bracket) || is_punct(s[k], '?') {
        Some((k + 1, TrailerKind::Other, k))
    } else if is_punct(s[k], '.') && !is_joint_punct(s[k], '.') && k + 1 < s.len() {
        if is_ident(s[k + 1], "await"@) || s[k + 1] is Literal {
            Some((k + 2, TrailerKind::Other, k))
        } else if s[k + 1] is Ident {
            let m = k + 2;
            let m2 = if is_colons(s, m) && m + 2 < s.len() && is_punct(s[m + 2], '<') {
                angle_end(s, m + 2, 0)
            } else {
                m
            };
            if m2 < s.len() && is_group(s[m2], Delimiter::Parenthesis) {
                Some((m2 + 1, TrailerKind::Method, k + 1))
            } else if m2 == m {
                Some((m, TrailerKind::Other, k))
            } else {
                None
            }
        } else {
            None
        }
    } else {
        None
    }
}

/// Bounds of `trailer_at`.
pub proof fn lemma_trailer_bounds(s: Seq<Tok>, k: int)
    requires
        trailer_at(s, k) is Some,
    ensures
        ({
            let (e, kd, np) = trailer_at(s, k)->0;
            &&& k < e <= s.len()
            &&& kd == TrailerKind::Method ==> k < np < e && s[np] is Ident
        }),
{
    let m = k + 2;
    if is_colons(s, m) && m + 2 < s.len() && is_punct(s[m + 2], '<') {
        lemma_angle_end_bounds(s, m + 2, 0);
    }
}

/// The postfix parts from position `k` on: where they end, the kind of the
/// last one with its method name position, and how many there are.
pub open spec fn chain(s: Seq<Tok>, k: int, kind: TrailerKind, name_pos: int, count: nat) -> (
    int,
    TrailerKind,
    int,
    nat,
)
    decreases s.len() - k,
{
    match trailer_at(s, k) {
        None => (k, kind, name_pos, count),
        Some((e, kd, np)) => {
            proof {
                lemma_trailer_bounds(s, k);
            }
            chain(s, e, kd, np, count + 1)
        },
    }
}

/// What the attributes before position `e0` mark: a call to rewrite (with
/// where it ends and which identifier gets the suffix `_async`), a call
/// through something other than a path (the attribute is only dropped), or
/// nothing the attribute can mark.
pub enum CallRewrite {
    Rewrite { end: int, rename: int },
    DropAttributes,
    Keep,
}

/// The first token of the expression at `e0` and whether it is a path,
/// with the position of the path's last identifier.
pub open spec fn atom_at(s: Seq<Tok>, e0: int) -> Option<(int, bool, int)> {
    match path_atom(s, e0) {
        Some((pe, li)) => Some((pe, true, li)),
        None => if 0 <= e0 < s.len() && (is_group(s[e0], Delimiter::Parenthesis) || is_group(
            s[e0],
            Delimiter::Bracket,
        ) || s[e0] is Literal) {
            Some((e0 + 1, false, e0))
        } else {
            None
        },
    }
}

/// What the attributes before position `e0` mark.
pub open spec fn call_rewrite_at(s: Seq<Tok>, e0: int) -> CallRewrite {
    match atom_at(s, e0) {
        None => CallRewrite::Keep,
        Some((atom_end, is_path, last)) => {
            let (end, kind, np, count) = chain(s, atom_end, TrailerKind::Other, e0, 0);
            if kind == TrailerKind::Method {
                CallRewrite::Rewrite { end, rename: np }
            } else if kind == TrailerKind::Call && count == 1 && is_path {
                CallRewrite::Rewrite { end, rename: last }
            } else if kind == TrailerKind::Call {
                CallRewrite::DropAttributes
            } else {
                CallRewrite::Keep
            }
        },
    }
}

/// The identifier `t` with the suffix `_async`.
pub open spec fn renamed(t: Tok) -> Tok {
    match t {
        Tok::Ident { name, span } => Tok::Ident { name: name + "_async"@, span },
        _ => t,
    }
}

/// An identifier that the library creates.
pub open spec fn word(w: Seq<char>) -> Tok {
    Tok::Ident { name: w, span: CALL_SITE }
}

/// A block that the library creates.
pub open spec fn block(stream: Seq<Tok>) -> Tok {
    Tok::Group { delimiter: Delimiter::Brace, stream, span: CALL_SITE }
}

/// `if _async { <attrs> <async call>.await } else { <attrs> <call> }` for
/// the call from `e0` to `end`, with the other attributes of the run that
/// starts at `i`.
pub open spec fn generic_call(s: Seq<Tok>, i: int, e0: int, end: int, rename: int) -> Seq<Tok> {
    let attrs = run_without_call_generic(s, i, e0);
    let call = s.subrange(e0, end);
    let async_call = call.update(rename - e0, renamed(s[rename]));
    let dot = Tok::Punct { ch: '.', joint: false, span: CALL_SITE };
    seq![
        word("if"@),
        word("_async"@),
        block(attrs + async_call + seq![dot, word("await"@)]),
        word("else"@),
        block(attrs + call),
    ]
}

/// Facts about the rewrite of a call.
pub proof fn lemma_call_rewrite_bounds(s: Seq<Tok>, e0: int)
    requires
        0 <= e0 <= s.len(),
        call_rewrite_at(s, e0) is Rewrite,
    ensures
        e0 <= call_rewrite_at(s, e0)->rename < call_rewrite_at(s, e0)->end <= s.len(),
        s[call_rewrite_at(s, e0)->rename] is Ident,
{
    let (atom_end, is_path, last) = atom_at(s, e0)->0;
    lemma_atom_bounds(s, e0);
    lemma_chain(s, atom_end, TrailerKind::Other, e0, 0, atom_end);
}

/// Bounds of `path_rest`.
pub proof fn lemma_path_rest(s: Seq<Tok>, m: int, last: int)
    requires
        0 <= last < m <= s.len(),
        s[last] is Ident,
    ensures
        m <= path_rest(s, m, last).0 <= s.len(),
        last <= path_rest(s, m, last).1 < path_rest(s, m, last).0,
        s[path_rest(s, m, last).1] is Ident,
    decreases s.len() - m,
{
    if 0 <= m && is_colons(s, m) && m + 2 < s.len() {
        if is_path_ident(s[m + 2]) {
            lemma_path_rest(s, m + 3, m + 2);
        } else if is_punct(s[m + 2], '<') {
            lemma_angle_end_bounds(s, m + 2, 0);
            lemma_path_rest(s, angle_end(s, m + 2, 0), last);
        }
    }
}

/// Bounds of `atom_at`.
pub proof fn lemma_atom_bounds(s: Seq<Tok>, e0: int)
    requires
        0 <= e0 <= s.len(),
        atom_at(s, e0) is Some,
    ensures
        ({
            let (atom_end, is_path, last) = atom_at(s, e0)->0;
            &&& e0 < atom_end <= s.len()
            &&& is_path ==> e0 <= last < atom_end && s[last] is Ident
        }),
{
    if e0 < s.len() && is_punct(s[e0], '<') {
        lemma_angle_end_bounds(s, e0, 0);
    }
    let k1 = path_first_ident(s, e0);
    if 0 <= k1 < s.len() && is_path_ident(s[k1]) {
        lemma_path_rest(s, k1 + 1, k1);
    }
}

/// Bounds of `chain`.
pub proof fn lemma_chain(s: Seq<Tok>, k: int, kind: TrailerKind, np: int, count: nat, k0: int)
    requires
        k0 <= k <= s.len(),
        kind == TrailerKind::Method ==> k0 <= np < k && s[np] is Ident,
    ensures
        k <= chain(s, k, kind, np, count).0 <= s.len(),
        chain(s, k, kind, np, count).1 == TrailerKind::Method ==> k0 <= chain(
            s,
            k,
            kind,
            np,
            count,
        ).2 < chain(s, k, kind, np, count).0 && s[chain(s, k, kind, np, count).2] is Ident,
        chain(s, k, kind, np, count).3 >= count,
        chain(s, k, kind, np, count).3 == count ==> chain(s, k, kind, np, count).1 == kind,
        chain(s, k, kind, np, count).3 > count ==> k < chain(s, k, kind, np, count).0,
    decreases s.len() - k,
{
    if let Some((e, kd, np2)) = trailer_at(s, k) {
        lemma_trailer_bounds(s, k);
        lemma_chain(s, e, kd, np2, count + 1, k0);
    }
}

/// The tokens from position `i` of `s` on, with every marked call
/// rewritten, groups (but macro bodies and attributes) rewritten inside.
pub open spec fn call_scan(s: Seq<Tok>, i: int) -> Seq<Tok>
    decreases s, s.len() - i,
{
    if i < 0 || i >= s.len() {
        Seq::empty()
    } else if outer_attr_at(s, i) {
        let e0 = attrs_end(s, i);
        proof {
            lemma_attrs_end_bounds(s, i);
        }
        if run_has_call_generic(s, i, e0) {
            match call_rewrite_at(s, e0) {
                CallRewrite::Rewrite { end, rename } => {
                    proof {
                        lemma_call_rewrite_bounds(s, e0);
                    }
                    generic_call(s, i, e0, end, rename) + call_scan(s, end)
                },
                CallRewrite::DropAttributes => run_without_call_generic(s, i, e0) + call_scan(s, e0),
                CallRewrite::Keep => s.subrange(i, e0) + call_scan(s, e0),
            }
        } else {
            s.subrange(i, e0) + call_scan(s, e0)
        }
    } else if s[i] is Group && !is_macro_body(s, i) {
        seq![
            Tok::Group {
                delimiter: s[i]->Group_delimiter,
                stream: call_rewrite(s[i]->Group_stream),
                span: s[i]->Group_span,
            },
        ] + call_scan(s, i + 1)
    } else {
        seq![s[i]] + call_scan(s, i + 1)
    }
}

/// The tokens `s` with every marked call rewritten.
pub open spec fn call_rewrite(s: Seq<Tok>) -> Seq<Tok>
    decreases s, s.len() + 1,
{
    call_scan(s, 0)
}

/// The span id of the last `call_generic` attribute from position `i` of
/// `s` on, at any depth outside macro bodies.
pub open spec fn last_misplaced_from(s: Seq<Tok>, i: int) -> Option<u64>
    decreases s, s.len() - i,
{
    if i < 0 || i >= s.len() {
        None
    } else {
        match last_misplaced_from(s, i + 1) {
            Some(sp) => Some(sp),
            None => if s[i] is Group && !is_macro_body(s, i) {
                last_misplaced(s[i]->Group_stream)
            } else if call_generic_head_at(s, i) {
                Some(span_of(s[i]))
            } else {
                None
            },
        }
    }
}

/// The span id of the last `call_generic` attribute in `s`.
pub open spec fn last_misplaced(s: Seq<Tok>) -> Option<u64>
    decreases s, s.len() + 1,
{
    last_misplaced_from(s, 0)
}

/// What `#[call_generic]` makes of the tokens `s`: every marked call
/// rewritten, or an error at the last attribute left that marks no call.
pub open spec fn call_generic_result(s: Seq<Tok>) -> Result<Seq<Tok>, (Seq<char>, u64)> {
    match last_misplaced(call_rewrite(s)) {
        Some(sp) => Err((misplaced_message(), sp)),
        None => Ok(call_rewrite(s)),
    }
}

/// Whether `c` is the contents of an attribute whose path ends in `word`.
fn path_last_is(c: &Vec<TokenTree>, word: &str) -> (b: bool)
    ensures
        b == (attr_path_last(toks(c@)) == Some(word@)),
{
    let ghost t = toks(c@);
    let start: usize = if c.len() >= 2 && joint_punct_is(&c[0], ':') && punct_is(&c[1], ':') {
        2
    } else {
        0
    };
    assert(t.len() == c.len());
    assert(attr_path_last(t) == path_last_from(t, start as int));
    let mut k = start;
    loop
        invariant
            t == toks(c@),
            start <= k,
            path_last_from(t, k as int) == path_last_from(t, start as int),
            attr_path_last(t) == path_last_from(t, start as int),
        decreases c.len() - k,
    {
        if k >= c.len() {
            return false;
        }
        match &c[k] {
            TokenTree::Ident { name, .. } => {
                if c.len() - k > 2 && joint_punct_is(&c[k + 1], ':') && punct_is(&c[k + 2], ':') {
                    k = k + 3;
                } else {
                    return name_is(name, word);
                }
            },
            _ => {
                return false;
            },
        }
    }
}

/// Whether `t` is the bracketed part of a `call_generic` attribute.
fn is_call_generic_bracket(t: &TokenTree) -> (b: bool)
    ensures
        b == is_call_generic_group(tok(*t)),
{
    match t {
        TokenTree::Group { delimiter: Delimiter::Bracket, stream, .. } => path_last_is(
            stream,
            "call_generic",
        ),
        _ => false,
    }
}

/// Whether an outer attribute starts at position `i` of `v`.
fn outer_attr_at_exec(v: &Vec<TokenTree>, i: usize) -> (b: bool)
    requires
        i <= v.len(),
    ensures
        b == outer_attr_at(toks(v@), i as int),
{
    v.len() - i >= 2 && punct_is(&v[i], '#') && group_is(&v[i + 1], Delimiter::Bracket)
}

/// Whether an outer `call_generic` attribute starts at position `i` of `v`.
fn call_generic_attr_at_exec(v: &Vec<TokenTree>, i: usize) -> (b: bool)
    requires
        i <= v.len(),
    ensures
        b == call_generic_attr_at(toks(v@), i as int),
{
    outer_attr_at_exec(v, i) && is_call_generic_bracket(&v[i + 1])
}

/// Whether an outer or inner `call_generic` attribute starts at `i`.
fn call_generic_head_at_exec(v: &Vec<TokenTree>, i: usize) -> (b: bool)
    requires
        i < v.len(),
    ensures
        b == call_generic_head_at(toks(v@), i as int),
{
    call_generic_attr_at_exec(v, i) || (v.len() - i > 2 && punct_is(&v[i], '#') && punct_is(
        &v[i + 1],
        '!',
    ) && is_call_generic_bracket(&v[i + 2]))
}

/// Whether the run of attributes from `i` to `e` holds a `call_generic` one.
fn run_has_call_generic_exec(v: &Vec<TokenTree>, i: usize, e: usize) -> (b: bool)
    requires
        i <= e <= v.len(),
    ensures
        b == run_has_call_generic(toks(v@), i as int, e as int),
{
    let ghost t = toks(v@);
    let mut k = i;
    while e - k > 1
        invariant
            i <= k <= e <= v.len(),
            t == toks(v@),
            run_has_call_generic(t, k as int, e as int) == run_has_call_generic(
                t,
                i as int,
                e as int,
            ),
        decreases e - k,
    {
        if call_generic_attr_at_exec(v, k) {
            return true;
        }
        k = k + 2;
    }
    false
}

/// Appends the run of attributes from `i` to `e` without its `call_generic`
/// ones.
fn append_run_without_call_generic(out: &mut Vec<TokenTree>, v: &Vec<TokenTree>, i: usize, e: usize)
    requires
        i <= e <= v.len(),
    ensures
        toks(final(out)@) == toks(old(out)@) + run_without_call_generic(toks(v@), i as int, e as int),
{
    let ghost t = toks(v@);
    let ghost start = toks(out@);
    let mut k = i;
    while e - k > 1
        invariant
            i <= k <= e <= v.len(),
            t == toks(v@),
            toks(out@) + run_without_call_generic(t, k as int, e as int) == start
                + run_without_call_generic(t, i as int, e as int),
        decreases e - k,
    {
        let ghost before = toks(out@);
        if !call_generic_attr_at_exec(v, k) {
            append_range(out, v, k, k + 2);
            proof {
                assert(t.subrange(k as int, k + 2) =~= seq![t[k as int], t[k + 1]]);
            }
        }
        proof {
            let piece = if call_generic_attr_at(t, k as int) {
                Seq::<Tok>::empty()
            } else {
                seq![t[k as int], t[k + 1]]
            };
            assert(toks(out@) == before + piece);
            assert(before + run_without_call_generic(t, k as int, e as int) =~= before + (piece
                + run_without_call_generic(t, k + 2, e as int)));
            assert(toks(out@) + run_without_call_generic(t, k + 2, e as int) =~= before + (piece
                + run_without_call_generic(t, k + 2, e as int)));
        }
        k = k + 2;
    }
    proof {
        assert(toks(out@) + run_without_call_generic(t, k as int, e as int) =~= toks(out@));
    }
}

/// Whether `t` can start a path.
fn is_path_ident_exec(t: &TokenTree) -> (b: bool)
    ensures
        b == is_path_ident(tok(*t)),
{
    match t {
        TokenTree::Ident { name, .. } => !is_keyword_name(name) || name_is(name, "self") || name_is(
            name,
            "Self",
        ) || name_is(name, "super") || name_is(name, "crate"),
        _ => false,
    }
}

/// Whether `::` stands at position `k` of `v`.
fn colons_at(v: &Vec<TokenTree>, k: usize) -> (b: bool)
    requires
        k <= v.len(),
    ensures
        b == is_colons(toks(v@), k as int),
{
    v.len() - k >= 2 && joint_punct_is(&v[k], ':') && punct_is(&v[k + 1], ':')
}

/// The path at position `k` of `v`, if one starts there.
fn find_path_atom(v: &Vec<TokenTree>, k: usize) -> (r: Option<(usize, usize)>)
    requires
        k <= v.len(),
    ensures
        match r {
            Some((e, l)) => path_atom(toks(v@), k as int) == Some((e as int, l as int)),
            None => path_atom(toks(v@), k as int) is None,
        },
{
    let ghost t = toks(v@);
    let k1 = if colons_at(v, k) {
        k + 2
    } else if k < v.len() && punct_is(&v[k], '<') {
        let q = find_angle_end(v, k);
        if colons_at(v, q) {
            q + 2
        } else {
            k
        }
    } else {
        k
    };
    assert(k1 == path_first_ident(t, k as int));
    if k1 >= v.len() || !is_path_ident_exec(&v[k1]) {
        return None;
    }
    let mut m = k1 + 1;
    let mut last = k1;
    proof {
        lemma_path_rest(t, m as int, last as int);
    }
    assert(path_atom(t, k as int) == Some(path_rest(t, k1 + 1, k1 as int)));
    loop
        invariant
            t == toks(v@),
            path_atom(t, k as int) == Some(path_rest(t, k1 + 1, k1 as int)),
            last < m <= v.len(),
            t[last as int] is Ident,
            path_rest(t, m as int, last as int) == path_rest(t, k1 + 1, k1 as int),
        decreases v.len() - m,
    {
        if colons_at(v, m) && v.len() - m > 2 {
            if is_path_ident_exec(&v[m + 2]) {
                last = m + 2;
                m = m + 3;
            } else if punct_is(&v[m + 2], '<') {
                let q = find_angle_end(v, m + 2);
                m = q;
            } else {
                assert(path_rest(t, m as int, last as int) == (m as int, last as int));
                return Some((m, last));
            }
        } else {
            assert(path_rest(t, m as int, last as int) == (m as int, last as int));
            return Some((m, last));
        }
    }
}

/// The postfix part at position `k` of `v`, if there is one.
fn find_trailer(v: &Vec<TokenTree>, k: usize) -> (r: Option<(usize, TrailerKind, usize)>)
    requires
        k <= v.len(),
    ensures
        match r {
            Some((e, kd, np)) => trailer_at(toks(v@), k as int) == Some(
                (e as int, kd, np as int),
            ),
            None => trailer_at(toks(v@), k as int) is None,
        },
{
    let ghost t = toks(v@);
    if k >= v.len() {
        return None;
    }
    if group_is(&v[k], Delimiter::Parenthesis) {
        return Some((k + 1, TrailerKind::Call, k));
    }
    if group_is(&v[k], Delimiter::Bracket) || punct_is(&v[k], '?') {
        return Some((k + 1, TrailerKind::Other, k));
    }
    if punct_is(&v[k], '.') && !joint_punct_is(&v[k], '.') && k + 1 < v.len() {
        if ident_is(&v[k + 1], "await") {
            return Some((k + 2, TrailerKind::Other, k));
        }
        match &v[k + 1] {
            TokenTree::Literal { .. } => {
                return Some((k + 2, TrailerKind::Other, k));
            },
            TokenTree::Ident { .. } => {
                let m = k + 2;
                let m2 = if colons_at(v, m) && v.len() - m > 2 && punct_is(&v[m + 2], '<') {
                    find_angle_end(v, m + 2)
                } else {
                    m
                };
                if m2 < v.len() && group_is(&v[m2], Delimiter::Parenthesis) {
                    return Some((m2 + 1, TrailerKind::Method, k + 1));
                } else if m2 == m {
                    return Some((m, TrailerKind::Other, k));
                } else {
                    return None;
                }
            },
            _ => {
                return None;
            },
        }
    }
    None
}

/// What the attributes before position `e0` of `v` mark.
pub enum MarkedCall {
    Rewrite { end: usize, rename: usize },
    DropAttributes,
    Keep,
}

/// The value of a marking.
pub open spec fn marked_view(m: MarkedCall) -> CallRewrite {
    match m {
        MarkedCall::Rewrite { end, rename } => CallRewrite::Rewrite {
            end: end as int,
            rename: rename as int,
        },
        MarkedCall::DropAttributes => CallRewrite::DropAttributes,
        MarkedCall::Keep => CallRewrite::Keep,
    }
}

/// What the attributes before position `e0` of `v` mark.
fn find_marked_call(v: &Vec<TokenTree>, e0: usize) -> (r: MarkedCall)
    requires
        e0 <= v.len(),
    ensures
        marked_view(r) == call_rewrite_at(toks(v@), e0 as int),
{
    let ghost t = toks(v@);
    let atom = match find_path_atom(v, e0) {
        Some((pe, li)) => Some((pe, true, li)),
        None => if e0 < v.len() && (group_is(&v[e0], Delimiter::Parenthesis) || group_is(
            &v[e0],
            Delimiter::Bracket,
        ) || match &v[e0] {
            TokenTree::Literal { .. } => true,
            _ => false,
        }) {
            Some((e0 + 1, false, e0))
        } else {
            None
        },
    };
    let (atom_end, is_path, last) = match atom {
        Some(a) => a,
        None => {
            return MarkedCall::Keep;
        },
    };
    proof {
        lemma_atom_bounds(t, e0 as int);
    }
    let (k, kind, np, count) = walk_chain(v, atom_end, e0);
    if kind == TrailerKind::Method {
        MarkedCall::Rewrite { end: k, rename: np }
    } else if kind == TrailerKind::Call && count == 1 && is_path {
        MarkedCall::Rewrite { end: k, rename: last }
    } else if kind == TrailerKind::Call {
        MarkedCall::DropAttributes
    } else {
        MarkedCall::Keep
    }
}

/// The postfix parts from position `atom_end` of `v` on.
fn walk_chain(v: &Vec<TokenTree>, atom_end: usize, e0: usize) -> (r: (usize, TrailerKind, usize, usize))
    requires
        atom_end <= v.len(),
    ensures
        chain(toks(v@), atom_end as int, TrailerKind::Other, e0 as int, 0) == (
            r.0 as int,
            r.1,
            r.2 as int,
            r.3 as nat,
        ),
{
    let ghost t = toks(v@);
    let mut k = atom_end;
    let mut kind = TrailerKind::Other;
    let mut np = e0;
    let mut count: usize = 0;
    loop
        invariant
            t == toks(v@),
            atom_end <= k <= v.len(),
            count <= k,
            chain(t, k as int, kind, np as int, count as nat) == chain(
                t,
                atom_end as int,
                TrailerKind::Other,
                e0 as int,
                0,
            ),
        decreases v.len() - k,
    {
        match find_trailer(v, k) {
            Some((e, kd, n2)) => {
                proof {
                    lemma_trailer_bounds(t, k as int);
                }
                k = e;
                kind = kd;
                np = n2;
                count = count + 1;
            },
            None => {
                return (k, kind, np, count);
            },
        }
    }
}

/// Appends `if _async { .. } else { .. }` for the call from `e0` to `end`.
fn push_generic_call(
    out: &mut Vec<TokenTree>,
    v: &Vec<TokenTree>,
    i: usize,
    e0: usize,
    end: usize,
    rename: usize,
)
    requires
        i <= e0 <= rename < end <= v.len(),
        toks(v@)[rename as int] is Ident,
    ensures
        toks(final(out)@) == toks(old(out)@) + generic_call(
            toks(v@),
            i as int,
            e0 as int,
            end as int,
            rename as int,
        ),
{
    let ghost t = toks(v@);
    let mut a: Vec<TokenTree> = Vec::new();
    append_run_without_call_generic(&mut a, v, i, e0);
    append_range(&mut a, v, e0, rename);
    let r = match &v[rename] {
        TokenTree::Ident { name, span } => {
            let mut n = name.clone();
            n.append("_async");
            TokenTree::Ident { name: n, span: *span }
        },
        _ => copy_tree(&v[rename]),
    };
    push_tree(&mut a, r);
    append_range(&mut a, v, rename + 1, end);
    push_tree(&mut a, TokenTree::Punct { ch: '.', joint: false, span: CALL_SITE });
    push_tree(&mut a, new_ident("await", CALL_SITE));
    let mut b: Vec<TokenTree> = Vec::new();
    append_run_without_call_generic(&mut b, v, i, e0);
    append_range(&mut b, v, e0, end);
    push_tree(out, new_ident("if", CALL_SITE));
    push_tree(out, new_ident("_async", CALL_SITE));
    push_tree(out, TokenTree::Group { delimiter: Delimiter::Brace, stream: a, span: CALL_SITE });
    push_tree(out, new_ident("else", CALL_SITE));
    push_tree(out, TokenTree::Group { delimiter: Delimiter::Brace, stream: b, span: CALL_SITE });
    proof {
        let attrs = run_without_call_generic(t, i as int, e0 as int);
        let call = t.subrange(e0 as int, end as int);
        let dot = Tok::Punct { ch: '.', joint: false, span: CALL_SITE };
        assert(toks(a@) =~= attrs + call.update(rename - e0, renamed(t[rename as int])) + seq![
            dot,
            word("await"@),
        ]);
        assert(toks(b@) =~= attrs + call);
        assert(toks(out@) =~= toks(old(out)@) + generic_call(
            t,
            i as int,
            e0 as int,
            end as int,
            rename as int,
        ));
    }
}

/// The tokens `v` with every marked call rewritten.
fn rewrite_calls(v: &Vec<TokenTree>) -> (r: Vec<TokenTree>)
    ensures
        toks(r@) == call_rewrite(toks(v@)),
    decreases v,
{
    let ghost t = toks(v@);
    let mut out: Vec<TokenTree> = Vec::new();
    let mut i: usize = 0;
    while i < v.len()
        invariant
            i <= v.len(),
            t == toks(v@),
            toks(out@) + call_scan(t, i as int) == call_scan(t, 0),
        decreases v.len() - i,
    {
        let ghost before = toks(out@);
        if outer_attr_at_exec(v, i) {
            let e0 = find_attrs_end_from(v, i);
            proof {
                lemma_attrs_end_bounds(t, i as int);
            }
            if run_has_call_generic_exec(v, i, e0) {
                match find_marked_call(v, e0) {
                    MarkedCall::Rewrite { end, rename } => {
                        proof {
                            lemma_call_rewrite_bounds(t, e0 as int);
                        }
                        push_generic_call(&mut out, v, i, e0, end, rename);
                        proof {
                            assert(before + call_scan(t, i as int) =~= toks(out@) + call_scan(
                                t,
                                end as int,
                            ));
                        }
                        i = end;
                    },
                    MarkedCall::DropAttributes => {
                        append_run_without_call_generic(&mut out, v, i, e0);
                        proof {
                            assert(before + call_scan(t, i as int) =~= toks(out@) + call_scan(
                                t,
                                e0 as int,
                            ));
                        }
                        i = e0;
                    },
                    MarkedCall::Keep => {
                        append_range(&mut out, v, i, e0);
                        proof {
                            assert(before + call_scan(t, i as int) =~= toks(out@) + call_scan(
                                t,
                                e0 as int,
                            ));
                        }
                        i = e0;
                    },
                }
            } else {
                append_range(&mut out, v, i, e0);
                proof {
                    assert(before + call_scan(t, i as int) =~= toks(out@) + call_scan(
                        t,
                        e0 as int,
                    ));
                }
                i = e0;
            }
        } else {
            let next = if macro_body_at(v, i) {
                copy_tree(&v[i])
            } else {
                match &v[i] {
                    TokenTree::Group { delimiter, stream, span } => {
                        proof {
                            assert(decreases_to!(v => v@[i as int]));
                        }
                        let inner = rewrite_calls(stream);
                        TokenTree::Group { delimiter: *delimiter, stream: inner, span: *span }
                    },
                    _ => copy_tree(&v[i]),
                }
            };
            push_tree(&mut out, next);
            proof {
                assert(before + call_scan(t, i as int) =~= toks(out@) + call_scan(t, i + 1));
            }
            i = i + 1;
        }
    }
    proof {
        assert(toks(out@) + call_scan(t, i as int) =~= toks(out@));
    }
    out
}

/// The span id of the last `call_generic` attribute in `v`.
fn find_last_misplaced(v: &Vec<TokenTree>) -> (r: Option<u64>)
    ensures
        r == last_misplaced(toks(v@)),
    decreases v,
{
    let ghost t = toks(v@);
    let mut k = v.len();
    while k > 0
        invariant
            k <= v.len(),
            t == toks(v@),
            last_misplaced_from(t, k as int) is None,
        decreases k,
    {
        let j = k - 1;
        let found = if macro_body_at(v, j) {
            if call_generic_head_at_exec(v, j) {
                Some(span_id(&v[j]))
            } else {
                None
            }
        } else {
            match &v[j] {
                TokenTree::Group { stream, .. } => {
                    proof {
                        assert(decreases_to!(v => v@[j as int]));
                    }
                    find_last_misplaced(stream)
                },
                _ => if call_generic_head_at_exec(v, j) {
                    Some(span_id(&v[j]))
                } else {
                    None
                },
            }
        };
        assert(found == last_misplaced_from(t, j as int));
        if found.is_some() {
            proof {
                lemma_misplaced_prefix(t, j as int);
            }
            return found;
        }
        k = j;
    }
    None
}

/// Where nothing is found after `j` but something at `j`, that is the
/// last one of the whole sequence.
proof fn lemma_misplaced_prefix(t: Seq<Tok>, j: int)
    requires
        0 <= j < t.len(),
        last_misplaced_from(t, j) is Some,
    ensures
        last_misplaced_from(t, 0) == last_misplaced_from(t, j),
    decreases j,
{
    if j > 0 {
        lemma_misplaced_prefix(t, j - 1);
    }
}

/// Rewrites every call marked with `#[call_generic]` in `input`; an
/// attribute left that marks no call is an error at the last such one.
pub fn parse_quote_call_generic(input: Vec<TokenTree>) -> (r: Result<Vec<TokenTree>, MacroError>)
    ensures
        match r {
            Ok(v) => call_generic_result(toks(input@)) == Ok::<Seq<Tok>, (Seq<char>, u64)>(
                toks(v@),
            ),
            Err(e) => call_generic_result(toks(input@)) == Err::<Seq<Tok>, (Seq<char>, u64)>(
                error_view(e),
            ),
        },
{
    let out = rewrite_calls(&input);
    match find_last_misplaced(&out) {
        Some(span) => Err(
            macro_error("call_generic must be used on a method call or a function call.", span),
        ),
        None => Ok(out),
    }
}

/// `#[call_generic] f(args)` becomes
/// `if _async { f_async(args).await } else { f(args) }`, and so each flavour
/// of the caller calls the flavour of `f` that matches it: the block
/// `{ f(args) }` in the synchronous one, `{ f_async(args).await }` in the
/// async one.
pub proof fn law_marked_call_follows_flavour(a: bool, hash: Tok, attr: Tok, f: Tok, args: Tok)
    requires
        is_punct(hash, '#'),
        is_call_generic_group(attr),
        is_path_ident(f),
        !is_marker(f),
        f->Ident_name.len() > 0,
        is_group(args, Delimiter::Parenthesis),
        !tok_mentions_marker(args),
    ensures
        call_rewrite(seq![hash, attr, f, args]) == seq![
            word("if"@),
            word("_async"@),
            block(
                seq![
                    renamed(f),
                    args,
                    Tok::Punct { ch: '.', joint: false, span: CALL_SITE },
                    word("await"@),
                ],
            ),
            word("else"@),
            block(seq![f, args]),
        ],
        desugar(a, call_rewrite(seq![hash, attr, f, args])) == seq![
            block(
                if a {
                    seq![
                        renamed(f),
                        args,
                        Tok::Punct { ch: '.', joint: false, span: CALL_SITE },
                        word("await"@),
                    ]
                } else {
                    seq![f, args]
                },
            ),
        ],
{
    reveal_strlit("if");
    reveal_strlit("else");
    reveal_strlit("_async");
    reveal_strlit("_sync");
    reveal_strlit("await");
    let s = seq![hash, attr, f, args];
    assert(outer_attr_at(s, 0));
    assert(call_generic_attr_at(s, 0));
    assert(!outer_attr_at(s, 2));
    assert(attrs_end(s, 2) == 2);
    assert(attrs_end(s, 0) == 2);
    assert(run_has_call_generic(s, 0, 2));
    assert(!is_colons(s, 2));
    assert(path_first_ident(s, 2) == 2);
    assert(!is_colons(s, 3));
    assert(path_rest(s, 3, 2) == (3int, 2int));
    assert(path_atom(s, 2) == Some((3int, 2int)));
    assert(trailer_at(s, 3) == Some((4int, TrailerKind::Call, 3int)));
    assert(trailer_at(s, 4) is None);
    assert(chain(s, 4, TrailerKind::Call, 3, 1) == (4int, TrailerKind::Call, 3int, 1nat));
    assert(chain(s, 3, TrailerKind::Other, 2, 0) == (4int, TrailerKind::Call, 3int, 1nat));
    assert(call_rewrite_at(s, 2) == CallRewrite::Rewrite { end: 4, rename: 2 });
    assert(run_without_call_generic(s, 2, 2) == Seq::<Tok>::empty());
    assert(run_without_call_generic(s, 0, 2) =~= Seq::<Tok>::empty());
    assert(call_scan(s, 4) == Seq::<Tok>::empty());
    let dot = Tok::Punct { ch: '.', joint: false, span: CALL_SITE };
    let async_call = seq![renamed(f), args, dot, word("await"@)];
    let sync_call = seq![f, args];
    assert(s.subrange(2, 4).update(0, renamed(s[2])) + seq![dot, word("await"@)] =~= async_call);
    assert(Seq::<Tok>::empty() + s.subrange(2, 4).update(0, renamed(s[2])) + seq![
        dot,
        word("await"@),
    ] =~= async_call);
    assert(Seq::<Tok>::empty() + s.subrange(2, 4) =~= sync_call);
    let g = seq![word("if"@), word("_async"@), block(async_call), word("else"@), block(sync_call)];
    assert(generic_call(s, 0, 2, 4, 2) =~= g);
    assert(call_scan(s, 0) =~= g);
    law_marker_selects_branch(a, word("if"@), word("_async"@), block(async_call), word("else"@), block(sync_call));
    let kept = if a { async_call } else { sync_call };
    assert(!is_marker(renamed(f))) by {
        assert((f->Ident_name + "_async"@).len() > "_async"@.len());
    }
    assert(!mentions_marker_from(kept, 0)) by {
        assert(!tok_mentions_marker(kept[0]));
        assert(!tok_mentions_marker(kept[1]));
        if a {
            assert(!tok_mentions_marker(kept[2]));
            assert("await"@[0] != "_sync"@[0]);
            assert(!tok_mentions_marker(kept[3]));
            assert(!mentions_marker_from(kept, 4));
            assert(!mentions_marker_from(kept, 3));
            assert(!mentions_marker_from(kept, 2));
        } else {
            assert(!mentions_marker_from(kept, 2));
        }
        assert(!mentions_marker_from(kept, 1));
    }
    law_unmarked_tokens_unchanged(a, kept);
    assert(desugar_tree(a, block(kept)) == block(kept));
}

/// `#[call_generic] x.m(args)` becomes
/// `if _async { x.m_async(args).await } else { x.m(args) }`, and so each
/// flavour of the caller calls the flavour of the method that matches it.
pub proof fn law_marked_method_call_follows_flavour(
    a: bool,
    hash: Tok,
    attr: Tok,
    x: Tok,
    dot: Tok,
    m: Tok,
    args: Tok,
)
    requires
        is_punct(hash, '#'),
        is_call_generic_group(attr),
        is_path_ident(x),
        !is_marker(x),
        is_punct(dot, '.'),
        !is_joint_punct(dot, '.'),
        m is Ident,
        !is_ident(m, "await"@),
        !is_marker(m),
        m->Ident_name.len() > 0,
        is_group(args, Delimiter::Parenthesis),
        !tok_mentions_marker(args),
    ensures
        desugar(a, call_rewrite(seq![hash, attr, x, dot, m, args])) == seq![
            block(
                if a {
                    seq![
                        x,
                        dot,
                        renamed(m),
                        args,
                        Tok::Punct { ch: '.', joint: false, span: CALL_SITE },
                        word("await"@),
                    ]
                } else {
                    seq![x, dot, m, args]
                },
            ),
        ],
{
    reveal_strlit("if");
    reveal_strlit("else");
    reveal_strlit("_async");
    reveal_strlit("_sync");
    reveal_strlit("await");
    let s = seq![hash, attr, x, dot, m, args];
    assert(outer_attr_at(s, 0));
    assert(call_generic_attr_at(s, 0));
    assert(!outer_attr_at(s, 2));
    assert(attrs_end(s, 2) == 2);
    assert(attrs_end(s, 0) == 2);
    assert(run_has_call_generic(s, 0, 2));
    assert(!is_colons(s, 2));
    assert(path_first_ident(s, 2) == 2);
    assert(!is_colons(s, 3));
    assert(path_rest(s, 3, 2) == (3int, 2int));
    assert(path_atom(s, 2) == Some((3int, 2int)));
    assert(!is_colons(s, 5));
    assert(trailer_at(s, 3) == Some((6int, TrailerKind::Method, 4int)));
    assert(trailer_at(s, 6) is None);
    assert(chain(s, 6, TrailerKind::Method, 4, 1) == (6int, TrailerKind::Method, 4int, 1nat));
    assert(chain(s, 3, TrailerKind::Other, 2, 0) == (6int, TrailerKind::Method, 4int, 1nat));
    assert(call_rewrite_at(s, 2) == CallRewrite::Rewrite { end: 6, rename: 4 });
    assert(run_without_call_generic(s, 2, 2) == Seq::<Tok>::empty());
    assert(run_without_call_generic(s, 0, 2) =~= Seq::<Tok>::empty());
    assert(call_scan(s, 6) == Seq::<Tok>::empty());
    let dot2 = Tok::Punct { ch: '.', joint: false, span: CALL_SITE };
    let async_call = seq![x, dot, renamed(m), args, dot2, word("await"@)];
    let sync_call = seq![x, dot, m, args];
    assert(Seq::<Tok>::empty() + s.subrange(2, 6).update(2, renamed(s[4])) + seq![
        dot2,
        word("await"@),
    ] =~= async_call);
    assert(Seq::<Tok>::empty() + s.subrange(2, 6) =~= sync_call);
    let g = seq![word("if"@), word("_async"@), block(async_call), word("else"@), block(sync_call)];
    assert(generic_call(s, 0, 2, 6, 4) =~= g);
    assert(call_scan(s, 0) =~= g);
    law_marker_selects_branch(a, word("if"@), word("_async"@), block(async_call), word("else"@), block(sync_call));
    let kept = if a { async_call } else { sync_call };
    assert(!is_marker(renamed(m))) by {
        assert((m->Ident_name + "_async"@).len() > "_async"@.len());
    }
    assert("await"@[0] != "_sync"@[0]);
    assert(!mentions_marker_from(kept, 0)) by {
        assert(!tok_mentions_marker(kept[0]));
        assert(!tok_mentions_marker(kept[1]));
        assert(!tok_mentions_marker(kept[2]));
        assert(!tok_mentions_marker(kept[3]));
        if a {
            assert(!tok_mentions_marker(kept[4]));
            assert(!tok_mentions_marker(kept[5]));
            assert(!mentions_marker_from(kept, 6));
            assert(!mentions_marker_from(kept, 5));
            assert(!mentions_marker_from(kept, 4));
        } else {
            assert(!mentions_marker_from(kept, 4));
        }
        assert(!mentions_marker_from(kept, 3));
        assert(!mentions_marker_from(kept, 2));
        assert(!mentions_marker_from(kept, 1));
    }
    law_unmarked_tokens_unchanged(a, kept);
    assert(desugar_tree(a, block(kept)) == block(kept));
}

/// Some `call_generic` attribute stands at position `i` of `s` or later, at
/// any depth.
pub open spec fn has_call_generic_from(s: Seq<Tok>, i: int) -> bool
    decreases s, s.len() - i,
{
    if i < 0 || i >= s.len() {
        false
    } else {
        call_generic_head_at(s, i) || tok_has_call_generic(s[i]) || has_call_generic_from(s, i + 1)
    }
}

/// Some `call_generic` attribute stands inside the group `t`.
pub open spec fn tok_has_call_generic(t: Tok) -> bool
    decreases t, 0int,
{
    match t {
        Tok::Group { stream, .. } => has_call_generic_from(stream, 0),
        _ => false,
    }
}

/// What `has_call_generic_from` says of one position.
proof fn lemma_no_call_generic_at(s: Seq<Tok>, i: int, k: int)
    requires
        0 <= i <= k < s.len(),
        !has_call_generic_from(s, i),
    ensures
        !call_generic_head_at(s, k),
        !tok_has_call_generic(s[k]),
    decreases k - i,
{
    if i < k {
        lemma_no_call_generic_at(s, i + 1, k);
    }
}

/// A run of attributes without a `call_generic` one.
proof fn lemma_run_without(s: Seq<Tok>, k: int, e: int)
    requires
        0 <= k <= e <= s.len(),
        !has_call_generic_from(s, 0),
    ensures
        !run_has_call_generic(s, k, e),
    decreases e - k,
{
    if k + 1 < e {
        lemma_no_call_generic_at(s, 0, k);
        lemma_run_without(s, k + 2, e);
    }
}

/// Without `call_generic` attributes, scanning copies.
proof fn lemma_call_scan_copies(s: Seq<Tok>, i: int)
    requires
        0 <= i <= s.len(),
        !has_call_generic_from(s, 0),
    ensures
        call_scan(s, i) == s.subrange(i, s.len() as int),
    decreases s, s.len() - i,
{
    if i < s.len() {
        lemma_no_call_generic_at(s, 0, i);
        if outer_attr_at(s, i) {
            let e0 = attrs_end(s, i);
            lemma_attrs_end_bounds(s, i);
            lemma_run_without(s, i, e0);
            lemma_call_scan_copies(s, e0);
            assert(s.subrange(i, e0) + s.subrange(e0, s.len() as int) =~= s.subrange(
                i,
                s.len() as int,
            ));
        } else {
            if s[i] is Group && !is_macro_body(s, i) {
                law_unmarked_calls_unchanged(s[i]->Group_stream);
            }
            lemma_call_scan_copies(s, i + 1);
            assert(seq![s[i]] + s.subrange(i + 1, s.len() as int) =~= s.subrange(
                i,
                s.len() as int,
            ));
        }
    } else {
        assert(s.subrange(i, s.len() as int) =~= Seq::<Tok>::empty());
    }
}

/// Without `call_generic` attributes, none is found misplaced.
proof fn lemma_none_misplaced(s: Seq<Tok>, i: int)
    requires
        0 <= i <= s.len(),
        !has_call_generic_from(s, 0),
    ensures
        last_misplaced_from(s, i) is None,
    decreases s, s.len() - i,
{
    if i < s.len() {
        lemma_no_call_generic_at(s, 0, i);
        lemma_none_misplaced(s, i + 1);
        if s[i] is Group && !is_macro_body(s, i) {
            let st = s[i]->Group_stream;
            assert(!has_call_generic_from(st, 0));
            lemma_none_misplaced(st, 0);
            assert(last_misplaced(st) is None);
        }
        assert(!call_generic_head_at(s, i));
    }
}

/// Tokens without any `call_generic` attribute are left as they are, and
/// no error is reported.
pub proof fn law_unmarked_calls_unchanged(s: Seq<Tok>)
    requires
        !has_call_generic_from(s, 0),
    ensures
        call_rewrite(s) == s,
        call_generic_result(s) == Ok::<Seq<Tok>, (Seq<char>, u64)>(s),
    decreases s, s.len() + 1,
{
    lemma_call_scan_copies(s, 0);
    assert(s.subrange(0, s.len() as int) =~= s);
    lemma_none_misplaced(s, 0);
}

/// The tokens of the path `segs[0] :: segs[1] :: ..`, each `::` written
/// as the tokens `c1 c2`.
pub open spec fn path_tokens(segs: Seq<Tok>, c1: Tok, c2: Tok) -> Seq<Tok>
    decreases segs.len(),
{
    if segs.len() <= 1 {
        segs
    } else {
        seq![segs[0], c1, c2] + path_tokens(segs.drop_first(), c1, c2)
    }
}

/// The length of a path's tokens, and what they hold.
proof fn lemma_path_tokens(segs: Seq<Tok>, c1: Tok, c2: Tok)
    requires
        segs.len() >= 1,
        forall|j: int| 0 <= j < segs.len() ==> #[trigger] segs[j] is Ident,
        c1 is Punct,
        c2 is Punct,
        !is_punct(c1, '#'),
        !is_punct(c2, '#'),
    ensures
        path_tokens(segs, c1, c2).len() == 3 * segs.len() - 2,
        path_tokens(segs, c1, c2)[0] == segs[0],
        path_tokens(segs, c1, c2).last() == segs.last(),
        forall|k: int|
            0 <= k < path_tokens(segs, c1, c2).len() ==> !is_punct(
                #[trigger] path_tokens(segs, c1, c2)[k],
                '#',
            ) && !(path_tokens(segs, c1, c2)[k] is Group),
    decreases segs.len(),
{
    if segs.len() > 1 {
        let rest = segs.drop_first();
        assert forall|j: int| 0 <= j < rest.len() implies #[trigger] rest[j] is Ident by {
            assert(rest[j] == segs[j + 1]);
        }
        lemma_path_tokens(rest, c1, c2);
        let p = path_tokens(segs, c1, c2);
        let q = path_tokens(rest, c1, c2);
        assert(p == seq![segs[0], c1, c2] + q);
        assert(p.last() == q.last());
        assert forall|k: int| 0 <= k < p.len() implies !is_punct(#[trigger] p[k], '#') && !(
        p[k] is Group) by {
            if k >= 3 {
                assert(p[k] == q[k - 3]);
            }
        }
    }
}

/// Renaming the last segment of a path renames its last token.
proof fn lemma_path_tokens_rename(segs: Seq<Tok>, c1: Tok, c2: Tok, r: Tok)
    requires
        segs.len() >= 1,
    ensures
        path_tokens(segs.update(segs.len() - 1, r), c1, c2) == path_tokens(segs, c1, c2).update(
            path_tokens(segs, c1, c2).len() - 1,
            r,
        ),
    decreases segs.len(),
{
    let u = segs.update(segs.len() - 1, r);
    if segs.len() > 1 {
        assert(u.drop_first() =~= segs.drop_first().update(segs.len() - 2, r));
        lemma_path_tokens_rename(segs.drop_first(), c1, c2, r);
        assert(path_tokens(u, c1, c2) =~= path_tokens(segs, c1, c2).update(
            path_tokens(segs, c1, c2).len() - 1,
            r,
        ));
    } else {
        assert(path_tokens(u, c1, c2) =~= path_tokens(segs, c1, c2).update(0, r));
    }
}

/// The path written in `s` after `pre`, followed by a token that is no
/// punctuation, ends there, with its last identifier just before.
proof fn lemma_path_rest_of_tokens(
    pre: Seq<Tok>,
    segs: Seq<Tok>,
    c1: Tok,
    c2: Tok,
    post: Seq<Tok>,
)
    requires
        segs.len() >= 1,
        is_joint_punct(c1, ':'),
        is_punct(c2, ':'),
        forall|j: int| 1 <= j < segs.len() ==> is_path_ident(#[trigger] segs[j]),
        post.len() >= 1,
        !is_punct(post[0], ':'),
    ensures
        ({
            let s = pre + path_tokens(segs, c1, c2) + post;
            let e = pre.len() + path_tokens(segs, c1, c2).len();
            path_rest(s, pre.len() + 1 as int, pre.len() as int) == (e as int, e - 1)
        }),
    decreases segs.len(),
{
    let p = path_tokens(segs, c1, c2);
    let s = pre + p + post;
    let m = pre.len() + 1 as int;
    if segs.len() > 1 {
        let rest = segs.drop_first();
        let pre2 = pre + seq![segs[0], c1, c2];
        assert forall|j: int| 1 <= j < rest.len() implies is_path_ident(#[trigger] rest[j]) by {
            assert(rest[j] == segs[j + 1]);
        }
        lemma_path_rest_of_tokens(pre2, rest, c1, c2, post);
        let q = path_tokens(rest, c1, c2);
        assert(s =~= pre2 + q + post);
        assert(s[m] == c1);
        assert(s[m + 1] == c2);
        assert(is_colons(s, m));
        assert(rest.len() >= 1);
        assert(q[0] == rest[0]) by {
            if rest.len() > 1 {
            } else {
            }
        }
        assert(s[m + 2] == rest[0]);
        assert(rest[0] == segs[1]);
        assert(is_path_ident(s[m + 2]));
    } else {
        assert(s[m] == post[0]);
        assert(!is_colons(s, m));
    }
}

/// Tokens without `#` and with no `call_generic` attribute inside their
/// groups hold no `call_generic` attribute.
proof fn lemma_no_heads(s: Seq<Tok>, i: int)
    requires
        0 <= i,
        forall|k: int| i <= k < s.len() ==> !is_punct(#[trigger] s[k], '#') && !tok_has_call_generic(
            s[k],
        ),
    ensures
        !has_call_generic_from(s, i),
    decreases s.len() - i,
{
    if i < s.len() {
        lemma_no_heads(s, i + 1);
    }
}

/// `#[call_generic] P(args)`, where `P` is a path `a::b::..::f` whose first
/// segment is any identifier that can start a path (`self`, `Self`, `super`
/// and `crate` included) and whose other segments are identifiers that are
/// no keyword, becomes
/// `if _async { a::b::..::f_async(args).await } else { a::b::..::f(args) }`,
/// and no error is reported.
pub proof fn law_marked_path_call_is_rewritten(
    hash: Tok,
    attr: Tok,
    segs: Seq<Tok>,
    c1: Tok,
    c2: Tok,
    args: Tok,
)
    requires
        is_punct(hash, '#'),
        is_call_generic_group(attr),
        segs.len() >= 1,
        segs[0] matches Tok::Ident { name, .. } && (!is_keyword(name) || name == "self"@ || name
            == "Self"@ || name == "super"@ || name == "crate"@),
        forall|j: int|
            1 <= j < segs.len() ==> (#[trigger] segs[j] matches Tok::Ident { name, .. }
                && !is_keyword(name)),
        is_joint_punct(c1, ':'),
        is_punct(c2, ':'),
        is_group(args, Delimiter::Parenthesis),
        !tok_has_call_generic(args),
    ensures
        ({
            let p = path_tokens(segs, c1, c2);
            let last = segs.last();
            let r = Tok::Ident { name: last->Ident_name + "_async"@, span: span_of(last) };
            let p2 = path_tokens(segs.update(segs.len() - 1, r), c1, c2);
            let dot = Tok::Punct { ch: '.', joint: false, span: CALL_SITE };
            let out = seq![
                Tok::Ident { name: "if"@, span: CALL_SITE },
                Tok::Ident { name: "_async"@, span: CALL_SITE },
                Tok::Group {
                    delimiter: Delimiter::Brace,
                    stream: p2 + seq![args, dot, Tok::Ident { name: "await"@, span: CALL_SITE }],
                    span: CALL_SITE,
                },
                Tok::Ident { name: "else"@, span: CALL_SITE },
                Tok::Group { delimiter: Delimiter::Brace, stream: p + seq![args], span: CALL_SITE },
            ];
            &&& call_rewrite(seq![hash, attr] + p + seq![args]) == out
            &&& call_generic_result(seq![hash, attr] + p + seq![args]) == Ok::<
                Seq<Tok>,
                (Seq<char>, u64),
            >(out)
        }),
{
    let n = segs.len() as int;
    let p = path_tokens(segs, c1, c2);
    assert forall|j: int| 0 <= j < n implies #[trigger] segs[j] is Ident by {}
    lemma_path_tokens(segs, c1, c2);
    let s = seq![hash, attr] + p + seq![args];
    let pl = p.len() as int;
    assert forall|j: int| 1 <= j < n implies is_path_ident(#[trigger] segs[j]) by {}
    lemma_path_rest_of_tokens(seq![hash, attr], segs, c1, c2, seq![args]);
    assert(s[s.len() - 1] == args);
    assert(s[2] == segs[0]);
    assert(is_path_ident(segs[0]));
    assert(outer_attr_at(s, 0));
    assert(call_generic_attr_at(s, 0));
    assert(!outer_attr_at(s, 2));
    assert(attrs_end(s, 2) == 2);
    assert(attrs_end(s, 0) == 2);
    assert(run_has_call_generic(s, 0, 2));
    assert(!is_colons(s, 2));
    assert(path_first_ident(s, 2) == 2);
    assert(path_atom(s, 2) == Some((pl + 2, pl + 1)));
    assert(atom_at(s, 2) == Some((pl + 2, true, pl + 1)));
    assert(trailer_at(s, pl + 2) == Some((pl + 3, TrailerKind::Call, pl + 2)));
    assert(trailer_at(s, pl + 3) is None);
    assert(chain(s, pl + 3, TrailerKind::Call, pl + 2, 1) == (pl + 3, TrailerKind::Call, pl + 2, 1nat));
    assert(chain(s, pl + 2, TrailerKind::Other, 2, 0) == (pl + 3, TrailerKind::Call, pl + 2, 1nat));
    assert(call_rewrite_at(s, 2) == CallRewrite::Rewrite { end: pl + 3, rename: pl + 1 });
    assert(run_without_call_generic(s, 2, 2) == Seq::<Tok>::empty());
    assert(run_without_call_generic(s, 0, 2) =~= Seq::<Tok>::empty());
    assert(call_scan(s, pl + 3) == Seq::<Tok>::empty());
    let last = segs.last();
    let r = Tok::Ident { name: last->Ident_name + "_async"@, span: span_of(last) };
    lemma_path_tokens_rename(segs, c1, c2, r);
    let p2 = path_tokens(segs.update(n - 1, r), c1, c2);
    assert(s[pl + 1] == p[pl - 1]);
    assert(renamed(s[pl + 1]) == r);
    let dot = Tok::Punct { ch: '.', joint: false, span: CALL_SITE };
    assert(s.subrange(2, pl + 3) =~= p + seq![args]);
    assert(Seq::<Tok>::empty() + s.subrange(2, pl + 3).update(pl - 1, r) + seq![dot, word("await"@)]
        =~= p2 + seq![args, dot, word("await"@)]);
    assert(Seq::<Tok>::empty() + s.subrange(2, pl + 3) =~= p + seq![args]);
    let out = seq![
        word("if"@),
        word("_async"@),
        block(p2 + seq![args, dot, word("await"@)]),
        word("else"@),
        block(p + seq![args]),
    ];
    assert(generic_call(s, 0, 2, pl + 3, pl + 1) =~= out);
    assert(call_scan(s, 0) =~= out);
    assert(call_rewrite(s) == out);
    lemma_rewritten_holds_no_attribute(p, p2, args, pl);
}

/// What the rewrite of a marked path call gives holds no `call_generic`
/// attribute.
proof fn lemma_rewritten_holds_no_attribute(p: Seq<Tok>, p2: Seq<Tok>, args: Tok, pl: int)
    requires
        pl == p.len(),
        pl >= 1,
        p2 == p.update(pl - 1, p2[pl - 1]),
        p2[pl - 1] is Ident,
        forall|k: int| 0 <= k < p.len() ==> !is_punct(#[trigger] p[k], '#') && !(p[k] is Group),
        is_group(args, Delimiter::Parenthesis),
        !tok_has_call_generic(args),
    ensures
        ({
            let dot = Tok::Punct { ch: '.', joint: false, span: CALL_SITE };
            let out = seq![
                word("if"@),
                word("_async"@),
                block(p2 + seq![args, dot, word("await"@)]),
                word("else"@),
                block(p + seq![args]),
            ];
            last_misplaced(out) is None
        }),
{
    let dot = Tok::Punct { ch: '.', joint: false, span: CALL_SITE };
    let in1 = p2 + seq![args, dot, word("await"@)];
    let in2 = p + seq![args];
    assert forall|k: int| 0 <= k < in1.len() implies !is_punct(#[trigger] in1[k], '#')
        && !tok_has_call_generic(in1[k]) by {
        if k < pl - 1 {
            assert(in1[k] == p2[k]);
            assert(p2[k] == p[k]);
            assert(!(p[k] is Group));
        } else if k == pl - 1 {
            assert(in1[k] == p2[k]);
        } else if k == pl {
            assert(in1[k] == args);
        } else if k == pl + 1 {
            assert(in1[k] == dot);
        } else {
            assert(in1[k] == word("await"@));
        }
    }
    assert forall|k: int| 0 <= k < in2.len() implies !is_punct(#[trigger] in2[k], '#')
        && !tok_has_call_generic(in2[k]) by {
        if k < pl {
            assert(in2[k] == p[k]);
            assert(!(p[k] is Group));
        } else {
            assert(in2[k] == args);
        }
    }
    lemma_no_heads(in1, 0);
    lemma_no_heads(in2, 0);
    let out = seq![word("if"@), word("_async"@), block(in1), word("else"@), block(in2)];
    assert forall|k: int| 0 <= k < out.len() implies !is_punct(#[trigger] out[k], '#')
        && !tok_has_call_generic(out[k]) by {}
    lemma_no_heads(out, 0);
    lemma_none_misplaced(out, 0);
}

/// The tokens of the field accesses `.fs[0] .fs[1] ..`, each dot written as
/// the token `dot`.
pub open spec fn field_tokens(dot: Tok, fs: Seq<Tok>) -> Seq<Tok>
    decreases fs.len(),
{
    if fs.len() == 0 {
        Seq::empty()
    } else {
        seq![dot, fs[0]] + field_tokens(dot, fs.drop_first())
    }
}

/// Field accesses followed by a method call `.m(args)` at the end of `s`
/// form a chain that ends with that method call.
proof fn lemma_field_chain(
    pre: Seq<Tok>,
    dot: Tok,
    fs: Seq<Tok>,
    m: Tok,
    args: Tok,
    kind: TrailerKind,
    np: int,
    count: nat,
)
    requires
        is_punct(dot, '.'),
        !is_joint_punct(dot, '.'),
        forall|j: int| 0 <= j < fs.len() ==> #[trigger] fs[j] is Ident && !is_ident(fs[j], "await"@),
        m is Ident,
        !is_ident(m, "await"@),
        is_group(args, Delimiter::Parenthesis),
    ensures
        ({
            let s = pre + field_tokens(dot, fs) + seq![dot, m, args];
            &&& field_tokens(dot, fs).len() == 2 * fs.len()
            &&& chain(s, pre.len() as int, kind, np, count) == (
                s.len() as int,
                TrailerKind::Method,
                s.len() - 2,
                count + fs.len() + 1,
            )
        }),
    decreases fs.len(),
{
    let f = field_tokens(dot, fs);
    let s = pre + f + seq![dot, m, args];
    let k = pre.len() as int;
    if fs.len() == 0 {
        assert(s =~= pre + seq![dot, m, args]);
        assert(!is_colons(s, k + 2));
        assert(trailer_at(s, k) == Some((k + 3, TrailerKind::Method, k + 1)));
        assert(trailer_at(s, k + 3) is None);
        assert(chain(s, k + 3, TrailerKind::Method, k + 1, count + 1) == (
            k + 3,
            TrailerKind::Method,
            k + 1,
            count + 1,
        ));
    } else {
        let rest = fs.drop_first();
        assert forall|j: int| 0 <= j < rest.len() implies #[trigger] rest[j] is Ident && !is_ident(
            rest[j],
            "await"@,
        ) by {
            assert(rest[j] == fs[j + 1]);
        }
        let pre2 = pre + seq![dot, fs[0]];
        lemma_field_chain(pre2, dot, rest, m, args, TrailerKind::Other, k, count + 1);
        assert(s =~= pre2 + field_tokens(dot, rest) + seq![dot, m, args]);
        assert(s[k] == dot);
        assert(s[k + 1] == fs[0]);
        assert(s[k + 2] == dot) by {
            if rest.len() > 0 {
                assert(field_tokens(dot, rest)[0] == dot);
            }
        }
        assert(!is_colons(s, k + 2));
        assert(trailer_at(s, k) == Some((k + 2, TrailerKind::Other, k)));
    }
}

/// What the tokens of field accesses are.
proof fn lemma_field_tokens(dot: Tok, fs: Seq<Tok>)
    requires
        is_punct(dot, '.'),
        forall|j: int| 0 <= j < fs.len() ==> #[trigger] fs[j] is Ident,
    ensures
        forall|k: int|
            0 <= k < field_tokens(dot, fs).len() ==> !is_punct(
                #[trigger] field_tokens(dot, fs)[k],
                '#',
            ) && !(field_tokens(dot, fs)[k] is Group),
        field_tokens(dot, fs).len() > 0 ==> field_tokens(dot, fs)[0] == dot,
    decreases fs.len(),
{
    if fs.len() > 0 {
        let rest = fs.drop_first();
        assert forall|j: int| 0 <= j < rest.len() implies #[trigger] rest[j] is Ident by {
            assert(rest[j] == fs[j + 1]);
        }
        lemma_field_tokens(dot, rest);
        let f = field_tokens(dot, fs);
        let q = field_tokens(dot, rest);
        assert(f == seq![dot, fs[0]] + q);
        assert forall|k: int| 0 <= k < f.len() implies !is_punct(#[trigger] f[k], '#') && !(
        f[k] is Group) by {
            if k >= 2 {
                assert(f[k] == q[k - 2]);
            }
        }
    }
}

/// `#[call_generic] R.m(args)`, where the receiver `R` is a path (as in
/// `law_marked_path_call_is_rewritten`) followed by any number of field
/// accesses, becomes `if _async { R.m_async(args).await } else { R.m(args) }`,
/// and no error is reported.
#[verifier::spinoff_prover]
#[verifier::rlimit(30)]
pub proof fn law_marked_method_call_on_fields_is_rewritten(
    hash: Tok,
    attr: Tok,
    segs: Seq<Tok>,
    c1: Tok,
    c2: Tok,
    dot: Tok,
    fs: Seq<Tok>,
    m: Tok,
    args: Tok,
)
    requires
        is_punct(hash, '#'),
        is_call_generic_group(attr),
        segs.len() >= 1,
        segs[0] matches Tok::Ident { name, .. } && (!is_keyword(name) || name == "self"@ || name
            == "Self"@ || name == "super"@ || name == "crate"@),
        forall|j: int|
            1 <= j < segs.len() ==> (#[trigger] segs[j] matches Tok::Ident { name, .. }
                && !is_keyword(name)),
        is_joint_punct(c1, ':'),
        is_punct(c2, ':'),
        is_punct(dot, '.'),
        !is_joint_punct(dot, '.'),
        forall|j: int| 0 <= j < fs.len() ==> (#[trigger] fs[j] matches Tok::Ident { name, .. }
            && !is_keyword(name)),
        m matches Tok::Ident { name, .. } && !is_keyword(name),
        is_group(args, Delimiter::Parenthesis),
        !tok_has_call_generic(args),
    ensures
        ({
            let recv = path_tokens(segs, c1, c2) + field_tokens(dot, fs);
            let r = Tok::Ident { name: m->Ident_name + "_async"@, span: span_of(m) };
            let dot2 = Tok::Punct { ch: '.', joint: false, span: CALL_SITE };
            let out = seq![
                Tok::Ident { name: "if"@, span: CALL_SITE },
                Tok::Ident { name: "_async"@, span: CALL_SITE },
                Tok::Group {
                    delimiter: Delimiter::Brace,
                    stream: recv + seq![dot, r, args, dot2, Tok::Ident { name: "await"@, span: CALL_SITE }],
                    span: CALL_SITE,
                },
                Tok::Ident { name: "else"@, span: CALL_SITE },
                Tok::Group {
                    delimiter: Delimiter::Brace,
                    stream: recv + seq![dot, m, args],
                    span: CALL_SITE,
                },
            ];
            &&& call_rewrite(seq![hash, attr] + recv + seq![dot, m, args]) == out
            &&& call_generic_result(seq![hash, attr] + recv + seq![dot, m, args]) == Ok::<
                Seq<Tok>,
                (Seq<char>, u64),
            >(out)
        }),
{
    reveal_strlit("await");
    let n = segs.len() as int;
    let p = path_tokens(segs, c1, c2);
    assert forall|j: int| 0 <= j < n implies #[trigger] segs[j] is Ident by {}
    lemma_path_tokens(segs, c1, c2);
    assert forall|j: int| 0 <= j < fs.len() implies #[trigger] fs[j] is Ident && !is_ident(
        fs[j],
        "await"@,
    ) by {}
    assert(!is_ident(m, "await"@));
    lemma_field_tokens(dot, fs);
    let f = field_tokens(dot, fs);
    let recv = p + f;
    let tail = seq![dot, m, args];
    let s = seq![hash, attr] + recv + tail;
    let pl = p.len() as int;
    let rl = recv.len() as int;
    assert forall|j: int| 1 <= j < n implies is_path_ident(#[trigger] segs[j]) by {}
    assert((f + tail)[0] == dot);
    lemma_path_rest_of_tokens(seq![hash, attr], segs, c1, c2, f + tail);
    assert(s =~= seq![hash, attr] + p + (f + tail));
    assert(s[2] == segs[0]);
    assert(is_path_ident(segs[0]));
    assert(outer_attr_at(s, 0));
    assert(call_generic_attr_at(s, 0));
    assert(!outer_attr_at(s, 2));
    assert(attrs_end(s, 2) == 2);
    assert(attrs_end(s, 0) == 2);
    assert(run_has_call_generic(s, 0, 2));
    assert(!is_colons(s, 2));
    assert(path_first_ident(s, 2) == 2);
    assert(path_atom(s, 2) == Some((pl + 2, pl + 1)));
    assert(atom_at(s, 2) == Some((pl + 2, true, pl + 1)));
    lemma_field_chain(seq![hash, attr] + p, dot, fs, m, args, TrailerKind::Other, 2, 0);
    assert(s =~= (seq![hash, attr] + p) + f + tail);
    assert(chain(s, pl + 2, TrailerKind::Other, 2, 0) == (
        rl + 5,
        TrailerKind::Method,
        rl + 3,
        fs.len() + 1,
    ));
    assert(call_rewrite_at(s, 2) == CallRewrite::Rewrite { end: rl + 5, rename: rl + 3 });
    assert(run_without_call_generic(s, 2, 2) == Seq::<Tok>::empty());
    assert(run_without_call_generic(s, 0, 2) =~= Seq::<Tok>::empty());
    assert(call_scan(s, rl + 5) == Seq::<Tok>::empty());
    let r = Tok::Ident { name: m->Ident_name + "_async"@, span: span_of(m) };
    assert(s[rl + 3] == m);
    assert(renamed(s[rl + 3]) == r);
    let dot2 = Tok::Punct { ch: '.', joint: false, span: CALL_SITE };
    assert(s.subrange(2, rl + 5) =~= recv + tail);
    assert(Seq::<Tok>::empty() + s.subrange(2, rl + 5).update(rl + 1, r) + seq![
        dot2,
        word("await"@),
    ] =~= recv + seq![dot, r, args, dot2, word("await"@)]);
    assert(Seq::<Tok>::empty() + s.subrange(2, rl + 5) =~= recv + tail);
    let out = seq![
        word("if"@),
        word("_async"@),
        block(recv + seq![dot, r, args, dot2, word("await"@)]),
        word("else"@),
        block(recv + tail),
    ];
    assert(generic_call(s, 0, 2, rl + 5, rl + 3) =~= out);
    assert(call_scan(s, 0) =~= out);
    assert(call_rewrite(s) == out);
    // no attribute is left
    let in1 = recv + seq![dot, r, args, dot2, word("await"@)];
    let in2 = recv + tail;
    assert forall|k: int| 0 <= k < recv.len() implies !is_punct(#[trigger] recv[k], '#') && !(
    recv[k] is Group) by {
        if k >= pl {
            assert(recv[k] == f[k - pl]);
        }
    }
    assert forall|k: int| 0 <= k < in1.len() implies !is_punct(#[trigger] in1[k], '#')
        && !tok_has_call_generic(in1[k]) by {
        if k < rl {
            assert(in1[k] == recv[k]);
        }
    }
    assert forall|k: int| 0 <= k < in2.len() implies !is_punct(#[trigger] in2[k], '#')
        && !tok_has_call_generic(in2[k]) by {
        if k < rl {
            assert(in2[k] == recv[k]);
        }
    }
    lemma_no_heads(in1, 0);
    lemma_no_heads(in2, 0);
    assert forall|k: int| 0 <= k < out.len() implies !is_punct(#[trigger] out[k], '#')
        && !tok_has_call_generic(out[k]) by {}
    lemma_no_heads(out, 0);
    lemma_none_misplaced(out, 0);
}


/// `#[call_generic]` on an expression that is neither a function call nor a
/// method call (a literal, as in `#[call_generic] "text"`, or a path, each
/// alone or before `;`) is refused, where the attribute holds no other
/// `call_generic` attribute, with the error "call_generic must be used
/// on a method call or a function call." at the attribute.
pub proof fn law_attribute_on_no_call_is_refused(hash: Tok, attr: Tok, x: Tok, rest: Seq<Tok>)
    requires
        is_punct(hash, '#'),
        is_call_generic_group(attr),
        !tok_has_call_generic(attr),
        x is Literal || is_path_ident(x),
        rest.len() <= 1,
        rest.len() == 1 ==> is_punct(rest[0], ';'),
    ensures
        call_generic_result(seq![hash, attr, x] + rest) == Err::<Seq<Tok>, (Seq<char>, u64)>(
            (misplaced_message(), span_of(hash)),
        ),
{
    let s = seq![hash, attr, x] + rest;
    assert(s[0] == hash);
    assert(s[1] == attr);
    assert(s[2] == x);
    assert(outer_attr_at(s, 0));
    assert(call_generic_attr_at(s, 0));
    assert(!outer_attr_at(s, 2));
    assert(attrs_end(s, 2) == 2);
    assert(attrs_end(s, 0) == 2);
    assert(run_has_call_generic(s, 0, 2));
    assert(!is_colons(s, 2));
    assert(path_first_ident(s, 2) == 2);
    assert(!is_colons(s, 3));
    assert(trailer_at(s, 3) is None);
    if x is Literal {
        assert(path_atom(s, 2) is None);
        assert(atom_at(s, 2) == Some((3int, false, 2int)));
    } else {
        assert(path_rest(s, 3, 2) == (3int, 2int));
        assert(path_atom(s, 2) == Some((3int, 2int)));
        assert(atom_at(s, 2) == Some((3int, true, 2int)));
    }
    assert(chain(s, 3, TrailerKind::Other, 2, 0) == (3int, TrailerKind::Other, 2int, 0nat));
    assert(call_rewrite_at(s, 2) == CallRewrite::Keep);
    assert(call_scan(s, s.len() as int) == Seq::<Tok>::empty());
    if rest.len() == 1 {
        assert(!outer_attr_at(s, 3));
        assert(call_scan(s, 3) =~= seq![s[3]]);
    }
    assert(call_scan(s, 2) =~= s.subrange(2, s.len() as int));
    assert(s.subrange(0, 2) + call_scan(s, 2) =~= s);
    assert(call_scan(s, 0) == s);
    let out = call_rewrite(s);
    assert(out == s);
    assert(last_misplaced_from(out, 2) is None) by {
        assert(last_misplaced_from(out, out.len() as int) is None);
        if rest.len() == 1 {
            assert(!call_generic_head_at(out, 3));
            assert(last_misplaced_from(out, 3) is None);
        }
        assert(!call_generic_head_at(out, 2));
    }
    assert(!call_generic_head_at(out, 1));
    assert(out[1] == attr);
    assert(has_call_generic_from(group_stream(attr), 0) == tok_has_call_generic(attr));
    lemma_none_misplaced(group_stream(attr), 0);
    assert(last_misplaced(group_stream(attr)) is None);
    assert(!is_macro_body(out, 1));
    assert(last_misplaced_from(out, 1) is None);
    assert(call_generic_head_at(out, 0));
    assert(last_misplaced_from(out, 0) == Some(span_of(hash)));
}

/// `#[call_generic]` on a call whose callee is no path, as in
/// `#[call_generic] (f)(args)`, is taken off the call and nothing else
/// changes: no rewrite, and no error.
pub proof fn law_call_through_non_path_drops_attribute(hash: Tok, attr: Tok, callee: Tok, args: Tok)
    requires
        is_punct(hash, '#'),
        is_call_generic_group(attr),
        is_group(callee, Delimiter::Parenthesis),
        !tok_has_call_generic(callee),
        is_group(args, Delimiter::Parenthesis),
        !tok_has_call_generic(args),
    ensures
        call_generic_result(seq![hash, attr, callee, args]) == Ok::<Seq<Tok>, (Seq<char>, u64)>(
            seq![callee, args],
        ),
{
    let s = seq![hash, attr, callee, args];
    assert(outer_attr_at(s, 0));
    assert(call_generic_attr_at(s, 0));
    assert(!outer_attr_at(s, 2));
    assert(attrs_end(s, 2) == 2);
    assert(attrs_end(s, 0) == 2);
    assert(run_has_call_generic(s, 0, 2));
    assert(!is_colons(s, 2));
    assert(path_first_ident(s, 2) == 2);
    assert(path_atom(s, 2) is None);
    assert(atom_at(s, 2) == Some((3int, false, 2int)));
    assert(trailer_at(s, 3) == Some((4int, TrailerKind::Call, 3int)));
    assert(trailer_at(s, 4) is None);
    assert(chain(s, 4, TrailerKind::Call, 3, 1) == (4int, TrailerKind::Call, 3int, 1nat));
    assert(chain(s, 3, TrailerKind::Other, 2, 0) == (4int, TrailerKind::Call, 3int, 1nat));
    assert(call_rewrite_at(s, 2) == CallRewrite::DropAttributes);
    assert(run_without_call_generic(s, 2, 2) == Seq::<Tok>::empty());
    assert(run_without_call_generic(s, 0, 2) =~= Seq::<Tok>::empty());
    law_unmarked_calls_unchanged(callee->Group_stream);
    law_unmarked_calls_unchanged(args->Group_stream);
    assert(!is_macro_body(s, 2));
    assert(!is_macro_body(s, 3));
    assert(call_scan(s, 4) == Seq::<Tok>::empty());
    assert(call_scan(s, 3) =~= seq![args]);
    assert(call_scan(s, 2) =~= seq![callee, args]);
    assert(call_scan(s, 0) =~= seq![callee, args]);
    let out = seq![callee, args];
    assert(!has_call_generic_from(out, 0)) by {
        assert(!call_generic_head_at(out, 0));
        assert(!call_generic_head_at(out, 1));
        assert(!has_call_generic_from(out, 2));
        assert(!has_call_generic_from(out, 1));
    }
    lemma_none_misplaced(out, 0);
}

/// The other attributes of a call marked with `#[call_generic]`, before it
/// or after it, stay on the call in both branches:
/// `#[a] #[call_generic] #[b] f(args)` becomes
/// `if _async { #[a] #[b] f_async(args).await } else { #[a] #[b] f(args) }`.
pub proof fn law_other_attributes_stay_on_the_call(
    h1: Tok,
    a1: Tok,
    hash: Tok,
    attr: Tok,
    h2: Tok,
    a2: Tok,
    f: Tok,
    args: Tok,
)
    requires
        is_punct(h1, '#'),
        is_group(a1, Delimiter::Bracket),
        !is_call_generic_group(a1),
        is_punct(hash, '#'),
        is_call_generic_group(attr),
        is_punct(h2, '#'),
        is_group(a2, Delimiter::Bracket),
        !is_call_generic_group(a2),
        is_path_ident(f),
        is_group(args, Delimiter::Parenthesis),
        !tok_has_call_generic(args),
    ensures
        ({
            let dot = Tok::Punct { ch: '.', joint: false, span: CALL_SITE };
            call_rewrite(seq![h1, a1, hash, attr, h2, a2, f, args]) == seq![
                word("if"@),
                word("_async"@),
                block(seq![h1, a1, h2, a2, renamed(f), args, dot, word("await"@)]),
                word("else"@),
                block(seq![h1, a1, h2, a2, f, args]),
            ]
        }),
{
    let s = seq![h1, a1, hash, attr, h2, a2, f, args];
    assert(outer_attr_at(s, 0));
    assert(outer_attr_at(s, 2));
    assert(outer_attr_at(s, 4));
    assert(!outer_attr_at(s, 6));
    assert(attrs_end(s, 6) == 6);
    assert(attrs_end(s, 4) == 6);
    assert(attrs_end(s, 2) == 6);
    assert(attrs_end(s, 0) == 6);
    assert(!call_generic_attr_at(s, 0));
    assert(call_generic_attr_at(s, 2));
    assert(!call_generic_attr_at(s, 4));
    assert(run_has_call_generic(s, 2, 6));
    assert(run_has_call_generic(s, 0, 6));
    assert(!is_colons(s, 6));
    assert(path_first_ident(s, 6) == 6);
    assert(!is_colons(s, 7));
    assert(path_rest(s, 7, 6) == (7int, 6int));
    assert(path_atom(s, 6) == Some((7int, 6int)));
    assert(trailer_at(s, 7) == Some((8int, TrailerKind::Call, 7int)));
    assert(trailer_at(s, 8) is None);
    assert(chain(s, 8, TrailerKind::Call, 7, 1) == (8int, TrailerKind::Call, 7int, 1nat));
    assert(chain(s, 7, TrailerKind::Other, 6, 0) == (8int, TrailerKind::Call, 7int, 1nat));
    assert(call_rewrite_at(s, 6) == CallRewrite::Rewrite { end: 8, rename: 6 });
    assert(run_without_call_generic(s, 6, 6) == Seq::<Tok>::empty());
    assert(run_without_call_generic(s, 4, 6) =~= seq![h2, a2]);
    assert(run_without_call_generic(s, 2, 6) =~= seq![h2, a2]);
    assert(run_without_call_generic(s, 0, 6) =~= seq![h1, a1, h2, a2]);
    assert(call_scan(s, 8) == Seq::<Tok>::empty());
    let dot = Tok::Punct { ch: '.', joint: false, span: CALL_SITE };
    let attrs = seq![h1, a1, h2, a2];
    assert(attrs + s.subrange(6, 8).update(0, renamed(s[6])) + seq![dot, word("await"@)] =~= seq![
        h1,
        a1,
        h2,
        a2,
        renamed(f),
        args,
        dot,
        word("await"@),
    ]);
    assert(attrs + s.subrange(6, 8) =~= seq![h1, a1, h2, a2, f, args]);
    assert(call_scan(s, 0) =~= generic_call(s, 0, 6, 8, 6));
}

/// No `#` stands in `t` at its top level, and no `call_generic` attribute
/// inside its groups.
pub open spec fn plain_tokens(t: Seq<Tok>) -> bool {
    forall|k: int| 0 <= k < t.len() ==> !is_punct(#[trigger] t[k], '#') && !tok_has_call_generic(t[k])
}

/// Plain tokens hold no `call_generic` attribute.
proof fn lemma_plain_has_none(t: Seq<Tok>, i: int)
    requires
        0 <= i,
        plain_tokens(t),
    ensures
        !has_call_generic_from(t, i),
    decreases t.len() - i,
{
    if i < t.len() {
        assert(!is_punct(t[i], '#'));
        lemma_plain_has_none(t, i + 1);
    }
}

/// Scanning copies plain tokens.
proof fn lemma_call_scan_plain(s: Seq<Tok>, i: int, m: int)
    requires
        0 <= i <= m <= s.len(),
        forall|k: int| i <= k < m ==> !is_punct(#[trigger] s[k], '#') && !tok_has_call_generic(s[k]),
    ensures
        call_scan(s, i) == s.subrange(i, m) + call_scan(s, m),
    decreases m - i,
{
    if i < m {
        assert(!is_punct(s[i], '#'));
        assert(!outer_attr_at(s, i));
        if s[i] is Group && !is_macro_body(s, i) {
            law_unmarked_calls_unchanged(s[i]->Group_stream);
        }
        lemma_call_scan_plain(s, i + 1, m);
        assert(seq![s[i]] + (s.subrange(i + 1, m) + call_scan(s, m)) =~= s.subrange(i, m)
            + call_scan(s, m));
    } else {
        assert(s.subrange(i, m) =~= Seq::<Tok>::empty());
    }
}

/// The tokens around a marked call are left as they are: in
/// `P #[call_generic] f(args) Q`, where `P` and `Q` hold no `#` at their
/// top level and no `call_generic` attribute inside, and `Q` does not go
/// on with the call, the result is
/// `P if _async { f_async(args).await } else { f(args) } Q`, and no error.
pub proof fn law_tokens_around_marked_call_are_kept(
    pre: Seq<Tok>,
    hash: Tok,
    attr: Tok,
    f: Tok,
    args: Tok,
    post: Seq<Tok>,
)
    requires
        plain_tokens(pre),
        is_punct(hash, '#'),
        is_call_generic_group(attr),
        is_path_ident(f),
        is_group(args, Delimiter::Parenthesis),
        !tok_has_call_generic(args),
        plain_tokens(post),
        post.len() > 0 ==> !is_group(post[0], Delimiter::Parenthesis) && !is_group(
            post[0],
            Delimiter::Bracket,
        ) && !is_punct(post[0], '?') && !is_punct(post[0], '.'),
    ensures
        ({
            let dot = Tok::Punct { ch: '.', joint: false, span: CALL_SITE };
            call_generic_result(pre + seq![hash, attr, f, args] + post) == Ok::<
                Seq<Tok>,
                (Seq<char>, u64),
            >(
                pre + seq![
                    word("if"@),
                    word("_async"@),
                    block(seq![renamed(f), args, dot, word("await"@)]),
                    word("else"@),
                    block(seq![f, args]),
                ] + post,
            )
        }),
{
    let s = pre + seq![hash, attr, f, args] + post;
    let n = pre.len() as int;
    assert forall|k: int| 0 <= k < n implies #[trigger] s[k] == pre[k] by {}
    assert forall|k: int| n + 4 <= k < s.len() implies #[trigger] s[k] == post[k - n - 4] by {}
    assert(s[n] == hash);
    assert(s[n + 1] == attr);
    assert(s[n + 2] == f);
    assert(s[n + 3] == args);
    assert forall|k: int| 0 <= k < n implies !is_punct(#[trigger] s[k], '#') && !tok_has_call_generic(
        s[k],
    ) by {
        assert(s[k] == pre[k]);
    }
    lemma_call_scan_plain(s, 0, n);
    assert forall|k: int| n + 4 <= k < s.len() implies !is_punct(#[trigger] s[k], '#')
        && !tok_has_call_generic(s[k]) by {
        assert(s[k] == post[k - n - 4]);
    }
    lemma_call_scan_plain(s, n + 4, s.len() as int);
    assert(call_scan(s, s.len() as int) == Seq::<Tok>::empty());
    assert(outer_attr_at(s, n));
    assert(call_generic_attr_at(s, n));
    assert(!outer_attr_at(s, n + 2));
    assert(attrs_end(s, n + 2) == n + 2);
    assert(attrs_end(s, n) == n + 2);
    assert(run_has_call_generic(s, n, n + 2));
    assert(!is_colons(s, n + 2));
    assert(path_first_ident(s, n + 2) == n + 2);
    assert(!is_colons(s, n + 3));
    assert(path_rest(s, n + 3, n + 2) == (n + 3, n + 2));
    assert(path_atom(s, n + 2) == Some((n + 3, n + 2)));
    assert(trailer_at(s, n + 3) == Some((n + 4, TrailerKind::Call, n + 3)));
    if post.len() > 0 {
        assert(s[n + 4] == post[0]);
    }
    assert(trailer_at(s, n + 4) is None);
    assert(chain(s, n + 4, TrailerKind::Call, n + 3, 1) == (n + 4, TrailerKind::Call, n + 3, 1nat));
    assert(chain(s, n + 3, TrailerKind::Other, n + 2, 0) == (n + 4, TrailerKind::Call, n + 3, 1nat));
    assert(call_rewrite_at(s, n + 2) == CallRewrite::Rewrite { end: n + 4, rename: n + 2 });
    assert(run_without_call_generic(s, n + 2, n + 2) == Seq::<Tok>::empty());
    assert(run_without_call_generic(s, n, n + 2) =~= Seq::<Tok>::empty());
    let dot = Tok::Punct { ch: '.', joint: false, span: CALL_SITE };
    let async_call = seq![renamed(f), args, dot, word("await"@)];
    let sync_call = seq![f, args];
    assert(Seq::<Tok>::empty() + s.subrange(n + 2, n + 4).update(0, renamed(s[n + 2])) + seq![
        dot,
        word("await"@),
    ] =~= async_call);
    assert(Seq::<Tok>::empty() + s.subrange(n + 2, n + 4) =~= sync_call);
    let g = seq![word("if"@), word("_async"@), block(async_call), word("else"@), block(sync_call)];
    assert(generic_call(s, n, n + 2, n + 4, n + 2) =~= g);
    assert(s.subrange(0, n) =~= pre);
    assert(s.subrange(n + 4, s.len() as int) =~= post);
    let out = pre + g + post;
    assert(call_scan(s, n) == g + call_scan(s, n + 4));
    assert(call_rewrite(s) =~= out);
    assert(plain_tokens(out)) by {
        assert(plain_tokens(async_call)) by {
            assert(!tok_has_call_generic(async_call[0]));
        }
        lemma_plain_has_none(async_call, 0);
        assert(plain_tokens(sync_call));
        lemma_plain_has_none(sync_call, 0);
        assert forall|k: int| 0 <= k < out.len() implies !is_punct(#[trigger] out[k], '#')
            && !tok_has_call_generic(out[k]) by {
            if k < n {
                assert(out[k] == pre[k]);
            } else if k < n + 5 {
                assert(out[k] == g[k - n]);
            } else {
                assert(out[k] == post[k - n - 5]);
            }
        }
    }
    lemma_plain_has_none(out, 0);
    lemma_none_misplaced(out, 0);
}

/// `#[call_generic]` on a call that something follows which ends the
/// expression elsewhere, as in `#[call_generic] f(args)?` or
/// `#[call_generic] f(args)[i]`, marks the outer expression, which is no
/// call, and is refused at the attribute (where the attribute holds no
/// other `call_generic` attribute).
pub proof fn law_marked_call_with_trailer_is_refused(hash: Tok, attr: Tok, f: Tok, args: Tok, q: Tok)
    requires
        is_punct(hash, '#'),
        is_call_generic_group(attr),
        !tok_has_call_generic(attr),
        is_path_ident(f),
        is_group(args, Delimiter::Parenthesis),
        !tok_has_call_generic(args),
        is_punct(q, '?') || is_group(q, Delimiter::Bracket),
        !tok_has_call_generic(q),
    ensures
        call_generic_result(seq![hash, attr, f, args, q]) == Err::<Seq<Tok>, (Seq<char>, u64)>(
            (misplaced_message(), span_of(hash)),
        ),
{
    let s = seq![hash, attr, f, args, q];
    assert(outer_attr_at(s, 0));
    assert(call_generic_attr_at(s, 0));
    assert(!outer_attr_at(s, 2));
    assert(attrs_end(s, 2) == 2);
    assert(attrs_end(s, 0) == 2);
    assert(run_has_call_generic(s, 0, 2));
    assert(!is_colons(s, 2));
    assert(path_first_ident(s, 2) == 2);
    assert(!is_colons(s, 3));
    assert(path_rest(s, 3, 2) == (3int, 2int));
    assert(path_atom(s, 2) == Some((3int, 2int)));
    assert(trailer_at(s, 3) == Some((4int, TrailerKind::Call, 3int)));
    assert(trailer_at(s, 4) == Some((5int, TrailerKind::Other, 4int)));
    assert(trailer_at(s, 5) is None);
    assert(chain(s, 5, TrailerKind::Other, 4, 2) == (5int, TrailerKind::Other, 4int, 2nat));
    assert(chain(s, 4, TrailerKind::Call, 3, 1) == (5int, TrailerKind::Other, 4int, 2nat));
    assert(chain(s, 3, TrailerKind::Other, 2, 0) == (5int, TrailerKind::Other, 4int, 2nat));
    assert(call_rewrite_at(s, 2) == CallRewrite::Keep);
    law_unmarked_calls_unchanged(args->Group_stream);
    if q is Group {
        law_unmarked_calls_unchanged(q->Group_stream);
    }
    assert(!is_macro_body(s, 3));
    assert(!is_macro_body(s, 4));
    assert(call_scan(s, 5) == Seq::<Tok>::empty());
    assert(!outer_attr_at(s, 4));
    assert(call_scan(s, 4) =~= seq![q]);
    assert(!outer_attr_at(s, 3));
    assert(call_scan(s, 3) =~= seq![args, q]);
    assert(call_scan(s, 2) =~= seq![f, args, q]);
    assert(s.subrange(0, 2) + call_scan(s, 2) =~= s);
    let out = call_rewrite(s);
    assert(out == s);
    assert(last_misplaced_from(out, 5) is None);
    lemma_none_misplaced(group_stream(q), 0);
    assert(!call_generic_head_at(out, 4));
    assert(last_misplaced_from(out, 4) is None);
    lemma_none_misplaced(group_stream(args), 0);
    assert(!call_generic_head_at(out, 3));
    assert(last_misplaced_from(out, 3) is None);
    assert(!call_generic_head_at(out, 2));
    assert(last_misplaced_from(out, 2) is None);
    assert(out[1] == attr);
    assert(has_call_generic_from(group_stream(attr), 0) == tok_has_call_generic(attr));
    lemma_none_misplaced(group_stream(attr), 0);
    assert(last_misplaced(group_stream(attr)) is None);
    assert(!is_macro_body(out, 1));
    assert(!call_generic_head_at(out, 1));
    assert(last_misplaced_from(out, 1) is None);
    assert(call_generic_head_at(out, 0));
}

/// In a chain of method calls marked with `#[call_generic]`, as in
/// `#[call_generic] x.a(args1).b(args2)`, only the last method, the one
/// whose call is the whole expression, gets the suffix `_async`:
/// `if _async { x.a(args1).b_async(args2).await } else { x.a(args1).b(args2) }`.
pub proof fn law_marked_method_chain_renames_the_last_method(
    hash: Tok,
    attr: Tok,
    x: Tok,
    dot1: Tok,
    m1: Tok,
    args1: Tok,
    dot2: Tok,
    m2: Tok,
    args2: Tok,
)
    requires
        is_punct(hash, '#'),
        is_call_generic_group(attr),
        is_path_ident(x),
        is_punct(dot1, '.'),
        !is_joint_punct(dot1, '.'),
        m1 matches Tok::Ident { name, .. } && !is_keyword(name),
        is_group(args1, Delimiter::Parenthesis),
        is_punct(dot2, '.'),
        !is_joint_punct(dot2, '.'),
        m2 matches Tok::Ident { name, .. } && !is_keyword(name),
        is_group(args2, Delimiter::Parenthesis),
    ensures
        ({
            let dot = Tok::Punct { ch: '.', joint: false, span: CALL_SITE };
            call_rewrite(seq![hash, attr, x, dot1, m1, args1, dot2, m2, args2]) == seq![
                word("if"@),
                word("_async"@),
                block(seq![x, dot1, m1, args1, dot2, renamed(m2), args2, dot, word("await"@)]),
                word("else"@),
                block(seq![x, dot1, m1, args1, dot2, m2, args2]),
            ]
        }),
{
    reveal_strlit("await");
    let s = seq![hash, attr, x, dot1, m1, args1, dot2, m2, args2];
    assert(outer_attr_at(s, 0));
    assert(call_generic_attr_at(s, 0));
    assert(!outer_attr_at(s, 2));
    assert(attrs_end(s, 2) == 2);
    assert(attrs_end(s, 0) == 2);
    assert(run_has_call_generic(s, 0, 2));
    assert(!is_colons(s, 2));
    assert(path_first_ident(s, 2) == 2);
    assert(!is_colons(s, 3));
    assert(path_rest(s, 3, 2) == (3int, 2int));
    assert(path_atom(s, 2) == Some((3int, 2int)));
    assert(!is_ident(m1, "await"@)) by {
        assert(is_keyword("await"@));
    }
    assert(!is_ident(m2, "await"@)) by {
        assert(is_keyword("await"@));
    }
    assert(!is_colons(s, 5));
    assert(trailer_at(s, 3) == Some((6int, TrailerKind::Method, 4int)));
    assert(!is_colons(s, 8));
    assert(trailer_at(s, 6) == Some((9int, TrailerKind::Method, 7int)));
    assert(trailer_at(s, 9) is None);
    assert(chain(s, 9, TrailerKind::Method, 7, 2) == (9int, TrailerKind::Method, 7int, 2nat));
    assert(chain(s, 6, TrailerKind::Method, 4, 1) == (9int, TrailerKind::Method, 7int, 2nat));
    assert(chain(s, 3, TrailerKind::Other, 2, 0) == (9int, TrailerKind::Method, 7int, 2nat));
    assert(call_rewrite_at(s, 2) == CallRewrite::Rewrite { end: 9, rename: 7 });
    assert(run_without_call_generic(s, 2, 2) == Seq::<Tok>::empty());
    assert(run_without_call_generic(s, 0, 2) =~= Seq::<Tok>::empty());
    assert(call_scan(s, 9) == Seq::<Tok>::empty());
    let dot = Tok::Punct { ch: '.', joint: false, span: CALL_SITE };
    assert(Seq::<Tok>::empty() + s.subrange(2, 9).update(5, renamed(s[7])) + seq![dot, word("await"@)]
        =~= seq![x, dot1, m1, args1, dot2, renamed(m2), args2, dot, word("await"@)]);
    assert(Seq::<Tok>::empty() + s.subrange(2, 9) =~= seq![x, dot1, m1, args1, dot2, m2, args2]);
    assert(call_scan(s, 0) =~= generic_call(s, 0, 2, 9, 7));
}

/// `#[call_generic] f::<T>(args)`, a call of a path with generic arguments,
/// renames the function, not the arguments:
/// `if _async { f_async::<T>(args).await } else { f::<T>(args) }`. (Stated
/// for generic arguments with no `<` or `>` inside.)
pub proof fn law_marked_call_with_turbofish_is_rewritten(
    hash: Tok,
    attr: Tok,
    f: Tok,
    c1: Tok,
    c2: Tok,
    gen: Seq<Tok>,
    args: Tok,
)
    requires
        is_punct(hash, '#'),
        is_call_generic_group(attr),
        is_path_ident(f),
        is_joint_punct(c1, ':'),
        is_punct(c2, ':'),
        simple_angle(gen),
        is_group(args, Delimiter::Parenthesis),
    ensures
        ({
            let dot = Tok::Punct { ch: '.', joint: false, span: CALL_SITE };
            call_rewrite(seq![hash, attr, f, c1, c2] + gen + seq![args]) == seq![
                word("if"@),
                word("_async"@),
                block(seq![renamed(f), c1, c2] + gen + seq![args, dot, word("await"@)]),
                word("else"@),
                block(seq![f, c1, c2] + gen + seq![args]),
            ]
        }),
{
    let s = seq![hash, attr, f, c1, c2] + gen + seq![args];
    let e = 5 + gen.len() as int;
    assert(s[0] == hash);
    assert(s[1] == attr);
    assert(s[2] == f);
    assert(s[3] == c1);
    assert(s[4] == c2);
    assert(s[5] == gen[0]);
    assert(s[e] == args);
    assert(s.subrange(5, e) =~= gen);
    lemma_simple_angle_end(s, 5, gen);
    assert(outer_attr_at(s, 0));
    assert(call_generic_attr_at(s, 0));
    assert(!outer_attr_at(s, 2));
    assert(attrs_end(s, 2) == 2);
    assert(attrs_end(s, 0) == 2);
    assert(run_has_call_generic(s, 0, 2));
    assert(!is_colons(s, 2));
    assert(path_first_ident(s, 2) == 2);
    assert(is_colons(s, 3));
    assert(!is_colons(s, e));
    assert(path_rest(s, e, 2) == (e, 2int));
    assert(path_rest(s, 3, 2) == (e, 2int));
    assert(path_atom(s, 2) == Some((e, 2int)));
    assert(trailer_at(s, e) == Some((e + 1, TrailerKind::Call, e)));
    assert(trailer_at(s, e + 1) is None);
    assert(chain(s, e + 1, TrailerKind::Call, e, 1) == (e + 1, TrailerKind::Call, e, 1nat));
    assert(chain(s, e, TrailerKind::Other, 2, 0) == (e + 1, TrailerKind::Call, e, 1nat));
    assert(call_rewrite_at(s, 2) == CallRewrite::Rewrite { end: e + 1, rename: 2 });
    assert(run_without_call_generic(s, 2, 2) == Seq::<Tok>::empty());
    assert(run_without_call_generic(s, 0, 2) =~= Seq::<Tok>::empty());
    assert(call_scan(s, e + 1) == Seq::<Tok>::empty());
    let dot = Tok::Punct { ch: '.', joint: false, span: CALL_SITE };
    assert(Seq::<Tok>::empty() + s.subrange(2, e + 1).update(0, renamed(s[2])) + seq![
        dot,
        word("await"@),
    ] =~= seq![renamed(f), c1, c2] + gen + seq![args, dot, word("await"@)]);
    assert(Seq::<Tok>::empty() + s.subrange(2, e + 1) =~= seq![f, c1, c2] + gen + seq![args]);
    assert(call_scan(s, 0) =~= generic_call(s, 0, 2, e + 1, 2));
}

/// The body of a macro invocation `name!(..)` is left as it is, and a
/// `call_generic` attribute inside it is no error: the macro, not this
/// library, gives its tokens a meaning.
pub proof fn law_macro_bodies_are_left_to_the_macro(name: Tok, bang: Tok, body: Tok)
    requires
        crate::desugar_if_async::is_macro_name(name),
        is_punct(bang, '!'),
        body is Group,
    ensures
        call_generic_result(seq![name, bang, body]) == Ok::<Seq<Tok>, (Seq<char>, u64)>(
            seq![name, bang, body],
        ),
{
    let s = seq![name, bang, body];
    assert(is_macro_body(s, 2));
    assert(!outer_attr_at(s, 0));
    assert(!outer_attr_at(s, 1));
    assert(!outer_attr_at(s, 2));
    assert(call_scan(s, 3) == Seq::<Tok>::empty());
    assert(call_scan(s, 2) =~= seq![body]);
    assert(call_scan(s, 1) =~= seq![bang, body]);
    assert(call_scan(s, 0) =~= s);
    assert(call_rewrite(s) == s);
    assert(last_misplaced_from(s, 3) is None);
    assert(!call_generic_head_at(s, 2));
    assert(last_misplaced_from(s, 2) is None);
    assert(!call_generic_head_at(s, 1));
    assert(last_misplaced_from(s, 1) is None);
    assert(!call_generic_head_at(s, 0));
    assert(last_misplaced_from(s, 0) is None);
}

/// A method call marked with `#[call_generic]` whose receiver is a
/// parenthesized expression, an array or a literal, as in
/// `#[call_generic] (a + b).m(args)`, is rewritten as any other:
/// `if _async { (a + b).m_async(args).await } else { (a + b).m(args) }`.
pub proof fn law_marked_method_call_on_any_receiver_is_rewritten(
    hash: Tok,
    attr: Tok,
    recv: Tok,
    dot: Tok,
    m: Tok,
    args: Tok,
)
    requires
        is_punct(hash, '#'),
        is_call_generic_group(attr),
        is_group(recv, Delimiter::Parenthesis) || is_group(recv, Delimiter::Bracket) || recv is Literal,
        is_punct(dot, '.'),
        !is_joint_punct(dot, '.'),
        m matches Tok::Ident { name, .. } && !is_keyword(name),
        is_group(args, Delimiter::Parenthesis),
    ensures
        ({
            let dot2 = Tok::Punct { ch: '.', joint: false, span: CALL_SITE };
            call_rewrite(seq![hash, attr, recv, dot, m, args]) == seq![
                word("if"@),
                word("_async"@),
                block(seq![recv, dot, renamed(m), args, dot2, word("await"@)]),
                word("else"@),
                block(seq![recv, dot, m, args]),
            ]
        }),
{
    let s = seq![hash, attr, recv, dot, m, args];
    assert(outer_attr_at(s, 0));
    assert(call_generic_attr_at(s, 0));
    assert(!outer_attr_at(s, 2));
    assert(attrs_end(s, 2) == 2);
    assert(attrs_end(s, 0) == 2);
    assert(run_has_call_generic(s, 0, 2));
    assert(!is_colons(s, 2));
    assert(path_first_ident(s, 2) == 2);
    assert(path_atom(s, 2) is None);
    assert(atom_at(s, 2) == Some((3int, false, 2int)));
    assert(!is_ident(m, "await"@)) by {
        assert(is_keyword("await"@));
    }
    assert(!is_colons(s, 5));
    assert(trailer_at(s, 3) == Some((6int, TrailerKind::Method, 4int)));
    assert(trailer_at(s, 6) is None);
    assert(chain(s, 6, TrailerKind::Method, 4, 1) == (6int, TrailerKind::Method, 4int, 1nat));
    assert(chain(s, 3, TrailerKind::Other, 2, 0) == (6int, TrailerKind::Method, 4int, 1nat));
    assert(call_rewrite_at(s, 2) == CallRewrite::Rewrite { end: 6, rename: 4 });
    assert(run_without_call_generic(s, 2, 2) == Seq::<Tok>::empty());
    assert(run_without_call_generic(s, 0, 2) =~= Seq::<Tok>::empty());
    assert(call_scan(s, 6) == Seq::<Tok>::empty());
    let dot2 = Tok::Punct { ch: '.', joint: false, span: CALL_SITE };
    assert(Seq::<Tok>::empty() + s.subrange(2, 6).update(2, renamed(s[4])) + seq![dot2, word("await"@)]
        =~= seq![recv, dot, renamed(m), args, dot2, word("await"@)]);
    assert(Seq::<Tok>::empty() + s.subrange(2, 6) =~= seq![recv, dot, m, args]);
    assert(call_scan(s, 0) =~= generic_call(s, 0, 2, 6, 4));
}

/// A marked call of a path that starts with `::`, or with a qualified
/// self type `<T as Trait>::`, renames the last segment of the path:
/// `#[call_generic] <T as Tr>::f(args)` becomes
/// `if _async { <T as Tr>::f_async(args).await } else { <T as Tr>::f(args) }`.
/// (Stated for a qualified self type with no `<` or `>` inside.)
pub proof fn law_marked_call_of_a_qualified_path_is_rewritten(
    hash: Tok,
    attr: Tok,
    qself: Seq<Tok>,
    c1: Tok,
    c2: Tok,
    f: Tok,
    args: Tok,
)
    requires
        is_punct(hash, '#'),
        is_call_generic_group(attr),
        qself.len() == 0 || simple_angle(qself),
        is_joint_punct(c1, ':'),
        is_punct(c2, ':'),
        is_path_ident(f),
        is_group(args, Delimiter::Parenthesis),
    ensures
        ({
            let dot = Tok::Punct { ch: '.', joint: false, span: CALL_SITE };
            let head = qself + seq![c1, c2];
            call_rewrite(seq![hash, attr] + head + seq![f, args]) == seq![
                word("if"@),
                word("_async"@),
                block(head + seq![renamed(f), args, dot, word("await"@)]),
                word("else"@),
                block(head + seq![f, args]),
            ]
        }),
{
    let head = qself + seq![c1, c2];
    let s = seq![hash, attr] + head + seq![f, args];
    let q = qself.len() as int;
    let fp = 4 + q;
    assert(s[0] == hash);
    assert(s[1] == attr);
    assert(s[2 + q] == c1);
    assert(s[3 + q] == c2);
    assert(s[fp] == f);
    assert(s[fp + 1] == args);
    assert(outer_attr_at(s, 0));
    assert(call_generic_attr_at(s, 0));
    if q > 0 {
        assert(s[2] == qself[0]);
        assert(s.subrange(2, 2 + q) =~= qself);
        lemma_simple_angle_end(s, 2, qself);
        assert(!is_colons(s, 2));
        assert(is_colons(s, 2 + q));
    } else {
        assert(is_colons(s, 2));
    }
    assert(!outer_attr_at(s, 2));
    assert(attrs_end(s, 2) == 2);
    assert(attrs_end(s, 0) == 2);
    assert(run_has_call_generic(s, 0, 2));
    assert(path_first_ident(s, 2) == fp);
    assert(!is_colons(s, fp + 1));
    assert(path_rest(s, fp + 1, fp) == (fp + 1, fp));
    assert(path_atom(s, 2) == Some((fp + 1, fp)));
    assert(trailer_at(s, fp + 1) == Some((fp + 2, TrailerKind::Call, fp + 1)));
    assert(trailer_at(s, fp + 2) is None);
    assert(chain(s, fp + 2, TrailerKind::Call, fp + 1, 1) == (fp + 2, TrailerKind::Call, fp + 1, 1nat));
    assert(chain(s, fp + 1, TrailerKind::Other, 2, 0) == (fp + 2, TrailerKind::Call, fp + 1, 1nat));
    assert(call_rewrite_at(s, 2) == CallRewrite::Rewrite { end: fp + 2, rename: fp });
    assert(run_without_call_generic(s, 2, 2) == Seq::<Tok>::empty());
    assert(run_without_call_generic(s, 0, 2) =~= Seq::<Tok>::empty());
    assert(call_scan(s, fp + 2) == Seq::<Tok>::empty());
    let dot = Tok::Punct { ch: '.', joint: false, span: CALL_SITE };
    assert(Seq::<Tok>::empty() + s.subrange(2, fp + 2).update(fp - 2, renamed(s[fp])) + seq![
        dot,
        word("await"@),
    ] =~= head + seq![renamed(f), args, dot, word("await"@)]);
    assert(Seq::<Tok>::empty() + s.subrange(2, fp + 2) =~= head + seq![f, args]);
    assert(call_scan(s, 0) =~= generic_call(s, 0, 2, fp + 2, fp));
}

/// Marked calls inside a group, such as the body of a function or a
/// block, are rewritten there, and a misplaced attribute inside it is an
/// error for the whole: a group comes out with its contents rewritten as
/// they would be on their own.
pub proof fn law_calls_inside_groups_are_rewritten(delimiter: Delimiter, inner: Seq<Tok>, span: u64)
    ensures
        call_rewrite(seq![Tok::Group { delimiter, stream: inner, span }]) == seq![
            Tok::Group { delimiter, stream: call_rewrite(inner), span },
        ],
        call_generic_result(seq![Tok::Group { delimiter, stream: inner, span }]) == match call_generic_result(
            inner,
        ) {
            Ok(t) => Ok::<Seq<Tok>, (Seq<char>, u64)>(seq![Tok::Group { delimiter, stream: t, span }]),
            Err(e) => Err(e),
        },
{
    let s = seq![Tok::Group { delimiter, stream: inner, span }];
    assert(!outer_attr_at(s, 0));
    assert(!is_macro_body(s, 0));
    assert(call_scan(s, 1) == Seq::<Tok>::empty());
    assert(call_scan(s, 0) =~= seq![Tok::Group { delimiter, stream: call_rewrite(inner), span }]);
    let out = seq![Tok::Group { delimiter, stream: call_rewrite(inner), span }];
    assert(call_rewrite(s) == out);
    assert(last_misplaced_from(out, 1) is None);
    assert(!is_macro_body(out, 0));
    assert(last_misplaced_from(out, 0) == last_misplaced(call_rewrite(inner)));
}

/// Of two misplaced `call_generic` attributes, as in
/// `#[call_generic] "a"; #[call_generic] "b"`, the error is reported at
/// the last one.
pub proof fn law_error_is_at_the_last_misplaced_attribute(
    h1: Tok,
    a1: Tok,
    x: Tok,
    semi: Tok,
    h2: Tok,
    a2: Tok,
    y: Tok,
)
    requires
        is_punct(h1, '#'),
        is_call_generic_group(a1),
        x is Literal,
        is_punct(semi, ';'),
        is_punct(h2, '#'),
        is_call_generic_group(a2),
        !tok_has_call_generic(a2),
        y is Literal,
    ensures
        call_generic_result(seq![h1, a1, x, semi, h2, a2, y]) == Err::<Seq<Tok>, (Seq<char>, u64)>(
            (misplaced_message(), span_of(h2)),
        ),
{
    let s = seq![h1, a1, x, semi, h2, a2, y];
    assert(outer_attr_at(s, 0));
    assert(call_generic_attr_at(s, 0));
    assert(!outer_attr_at(s, 2));
    assert(attrs_end(s, 2) == 2);
    assert(attrs_end(s, 0) == 2);
    assert(run_has_call_generic(s, 0, 2));
    assert(path_first_ident(s, 2) == 2);
    assert(path_atom(s, 2) is None);
    assert(atom_at(s, 2) == Some((3int, false, 2int)));
    assert(trailer_at(s, 3) is None);
    assert(chain(s, 3, TrailerKind::Other, 2, 0) == (3int, TrailerKind::Other, 2int, 0nat));
    assert(call_rewrite_at(s, 2) == CallRewrite::Keep);
    assert(outer_attr_at(s, 4));
    assert(call_generic_attr_at(s, 4));
    assert(!outer_attr_at(s, 6));
    assert(attrs_end(s, 6) == 6);
    assert(attrs_end(s, 4) == 6);
    assert(run_has_call_generic(s, 4, 6));
    assert(path_first_ident(s, 6) == 6);
    assert(path_atom(s, 6) is None);
    assert(atom_at(s, 6) == Some((7int, false, 6int)));
    assert(trailer_at(s, 7) is None);
    assert(chain(s, 7, TrailerKind::Other, 6, 0) == (7int, TrailerKind::Other, 6int, 0nat));
    assert(call_rewrite_at(s, 6) == CallRewrite::Keep);
    assert(call_scan(s, 7) == Seq::<Tok>::empty());
    assert(call_scan(s, 6) =~= seq![y]);
    assert(call_scan(s, 4) =~= seq![h2, a2, y]);
    assert(!outer_attr_at(s, 3));
    assert(call_scan(s, 3) =~= seq![semi, h2, a2, y]);
    assert(call_scan(s, 2) =~= seq![x, semi, h2, a2, y]);
    assert(call_scan(s, 0) =~= s);
    let out = call_rewrite(s);
    assert(out == s);
    assert(last_misplaced_from(out, 7) is None);
    assert(!call_generic_head_at(out, 6));
    assert(last_misplaced_from(out, 6) is None);
    assert(out[5] == a2);
    assert(has_call_generic_from(group_stream(a2), 0) == tok_has_call_generic(a2));
    lemma_none_misplaced(group_stream(a2), 0);
    assert(last_misplaced(group_stream(a2)) is None);
    assert(a2->Group_stream == group_stream(a2));
    assert(!is_macro_body(out, 5));
    assert(!call_generic_head_at(out, 5));
    assert(last_misplaced_from(out, 5) is None);
    assert(call_generic_head_at(out, 4));
    assert(last_misplaced_from(out, 4) == Some(span_of(h2)));
    assert(last_misplaced_from(out, 3) == Some(span_of(h2)));
    assert(last_misplaced_from(out, 2) == Some(span_of(h2)));
    assert(last_misplaced_from(out, 1) == Some(span_of(h2)));
    assert(last_misplaced_from(out, 0) == Some(span_of(h2)));
}

} // verus!
