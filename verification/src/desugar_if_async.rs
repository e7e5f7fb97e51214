//! Keeping one flavour of `if _async { .. } else { .. }` blocks.
//!
//! Inside an `async_generic` function, `if _async { A } else { B }` stands
//! for `A` in the async flavour and for `B` in the synchronous one, and
//! `if _sync` for the reverse; without `else`, the other flavour gets an
//! empty block. The condition must be the marker alone, as a one-segment
//! path (a leading `::` and generic arguments `::<..>` are allowed),
//! directly followed by the block. Tokens inside macro invocations are left as they are.
use vstd::prelude::*;
use crate::grammar::{
    angle_end, find_angle_end, lemma_angle_end_bounds, lemma_angle_end_closes,
    lemma_angle_end_puncts, lemma_simple_angle_end, simple_angle,
};
use crate::token::{
    copy_tree, group_is, ident_is, is_group, is_ident, is_joint_punct, is_keyword,
    is_keyword_name, is_punct, joint_punct_is, lemma_toks_push, punct_is, toks, Delimiter, Tok, TokenTree, CALL_SITE,
};

verus! {

/// The flavour of the function that is being produced.
pub struct DesugarIfAsync {
    pub is_async: bool,
}

/// `t` is an identifier that can name a macro.
pub open spec fn is_macro_name(t: Tok) -> bool {
    t matches Tok::Ident { name, .. } && !is_keyword(name)
}

/// The group at position `i` of `s` is the body of a macro invocation
/// (`name!(..)`, `path::name!{..}` or `macro_rules! name {..}`).
pub open spec fn is_macro_body(s: Seq<Tok>, i: int) -> bool {
    ||| (2 <= i < s.len() && is_punct(s[i - 1], '!') && is_macro_name(s[i - 2]))
    ||| (3 <= i < s.len() && s[i - 1] is Ident && is_punct(s[i - 2], '!') && is_ident(
        s[i - 3],
        "macro_rules"@,
    ))
}

/// An identifier that marks a flavour: `_async` or `_sync`.
pub open spec fn is_marker(t: Tok) -> bool {
    is_ident(t, "_async"@) || is_ident(t, "_sync"@)
}

/// The path separator `::` stands at position `j` of `t`.
pub open spec fn path_sep_at(t: Seq<Tok>, j: int) -> bool {
    0 <= j && j + 1 < t.len() && is_joint_punct(t[j], ':') && is_punct(t[j + 1], ':')
}

/// Where the marker stands in the condition of the `if` at position `i`:
/// after a leading `::`, if there is one.
pub open spec fn marker_pos(t: Seq<Tok>, i: int) -> int {
    if path_sep_at(t, i + 1) {
        i + 3
    } else {
        i + 1
    }
}

/// Where the condition of the `if` at position `i` ends: after the marker,
/// or after the generic arguments `::<..>` that follow it.
pub open spec fn cond_end(t: Seq<Tok>, i: int) -> int {
    let m = marker_pos(t, i);
    if path_sep_at(t, m + 1) && m + 3 < t.len() && is_punct(t[m + 3], '<') {
        angle_end(t, m + 3, 0)
    } else {
        m + 1
    }
}

/// At position `i` of `t` stands an `if` whose condition is the one-segment
/// path `_async` or `_sync` (with an optional leading `::` and optional
/// generic arguments `::<..>`), followed by a block.
pub open spec fn marker_at(t: Seq<Tok>, i: int) -> bool {
    &&& 0 <= i < t.len()
    &&& is_ident(t[i], "if"@)
    &&& marker_pos(t, i) < t.len()
    &&& is_marker(t[marker_pos(t, i)])
    &&& cond_end(t, i) < t.len()
    &&& is_group(t[cond_end(t, i)], Delimiter::Brace)
}

/// The condition of an `if` ends after its marker.
pub proof fn lemma_cond_end_bounds(t: Seq<Tok>, i: int)
    requires
        0 <= i,
        marker_pos(t, i) < t.len(),
    ensures
        i < marker_pos(t, i) < cond_end(t, i),
        cond_end(t, i) <= t.len(),
{
    let m = marker_pos(t, i);
    if path_sep_at(t, m + 1) && m + 3 < t.len() && is_punct(t[m + 3], '<') {
        lemma_angle_end_bounds(t, m + 3, 0);
    }
}

/// The empty block `{}` that stands for a branch that is left out.
pub open spec fn empty_block() -> Tok {
    Tok::Group { delimiter: Delimiter::Brace, stream: Seq::empty(), span: CALL_SITE }
}

/// A punctuation mark that, standing alone after a `{ .. }` group, carries
/// an expression on: `= | . ? < > + / % ^ @`.
pub open spec fn is_operator_char(c: char) -> bool {
    c == '=' || c == '|' || c == '.' || c == '?' || c == '<' || c == '>' || c == '+' || c == '/'
        || c == '%' || c == '^' || c == '@'
}

/// From position `j` of `t` on, a `{ .. }` group comes before any `;`.
pub open spec fn brace_before_semicolon(t: Seq<Tok>, j: int) -> bool
    decreases t.len() - j,
{
    if j < 0 || j >= t.len() {
        false
    } else if is_group(t[j], Delimiter::Brace) {
        true
    } else if is_punct(t[j], ';') {
        false
    } else {
        brace_before_semicolon(t, j + 1)
    }
}

/// The token at position `j` of `t` carries a condition on past the
/// `{ .. }` group before it, so that group is part of the condition (a
/// struct pattern as in `if let P { x } = p`, or a block, `unsafe`, `match`
/// or loop body): another `{ .. }` group, the keyword `as`, an operator (a
/// punctuation mark joined to the next one, or one of `is_operator_char`),
/// or one of `* - & !` that a block follows before any `;` (else it starts
/// the next statement).
pub open spec fn continues_condition(t: Seq<Tok>, j: int) -> bool {
    &&& 0 <= j < t.len()
    &&& {
        ||| is_group(t[j], Delimiter::Brace)
        ||| is_ident(t[j], "as"@)
        ||| (t[j] matches Tok::Punct { ch, joint, .. } && (joint || is_operator_char(ch)))
        ||| ((is_punct(t[j], '*') || is_punct(t[j], '-') || is_punct(t[j], '&') || is_punct(
            t[j],
            '!',
        )) && brace_before_semicolon(t, j + 1))
    }
}

/// The position of the block of the `if` whose condition starts at `k`: the
/// first `{ .. }` group at or after `k` that does not carry the condition
/// on, or the length of `t` if there is none.
pub open spec fn then_block(t: Seq<Tok>, k: int) -> int
    decreases t.len() - k,
{
    if k < 0 || k >= t.len() {
        t.len() as int
    } else if is_group(t[k], Delimiter::Brace) && !continues_condition(t, k + 1) {
        k
    } else {
        then_block(t, k + 1)
    }
}

/// Where the `else` branch that starts at position `i` of `t` ends: after a
/// block, or after a whole `if .. { .. } else ..` chain, each `if` ending
/// with its block. Anything else is no branch and ends at once.
pub open spec fn else_end(t: Seq<Tok>, i: int) -> int
    decreases t.len() - i,
{
    if i < 0 || i >= t.len() {
        i
    } else if is_group(t[i], Delimiter::Brace) {
        i + 1
    } else if is_ident(t[i], "if"@) {
        let j = then_block(t, i + 1);
        if j >= t.len() {
            t.len() as int
        } else if j + 1 < t.len() && is_ident(t[j + 1], "else"@) {
            proof {
                lemma_then_block_bounds(t, i + 1);
            }
            else_end(t, j + 2)
        } else {
            j + 1
        }
    } else {
        i
    }
}

/// Bounds of `then_block`.
pub proof fn lemma_then_block_bounds(t: Seq<Tok>, k: int)
    requires
        0 <= k,
    ensures
        k <= then_block(t, k) <= t.len() || (k > t.len() && then_block(t, k) == t.len()),
        then_block(t, k) < t.len() ==> is_group(t[then_block(t, k)], Delimiter::Brace),
    decreases t.len() - k,
{
    if k < t.len() && !(is_group(t[k], Delimiter::Brace) && !continues_condition(t, k + 1)) {
        lemma_then_block_bounds(t, k + 1);
    }
}

/// Bounds of `else_end`.
pub proof fn lemma_else_end_bounds(t: Seq<Tok>, i: int)
    requires
        0 <= i <= t.len(),
    ensures
        i <= else_end(t, i) <= t.len(),
    decreases t.len() - i,
{
    if i < t.len() && !is_group(t[i], Delimiter::Brace) && is_ident(t[i], "if"@) {
        let j = then_block(t, i + 1);
        lemma_then_block_bounds(t, i + 1);
        if j < t.len() && j + 1 < t.len() && is_ident(t[j + 1], "else"@) {
            lemma_else_end_bounds(t, j + 2);
        }
    }
}

/// The tokens from position `i` of `t` on, with each `if _async` / `if _sync`
/// expression replaced by the branch that belongs to flavour `a`.
pub open spec fn scan(a: bool, t: Seq<Tok>, i: int) -> Seq<Tok>
    decreases t.len() - i,
{
    if i < 0 || i >= t.len() {
        Seq::empty()
    } else if marker_at(t, i) {
        let m = marker_pos(t, i);
        let e = cond_end(t, i);
        proof {
            lemma_cond_end_bounds(t, i);
        }
        let keep_then = is_ident(t[m], "_async"@) == a;
        if e + 1 < t.len() && is_ident(t[e + 1], "else"@) {
            if keep_then {
                proof {
                    lemma_else_end_bounds(t, e + 2);
                }
                seq![t[e]] + scan(a, t, else_end(t, e + 2))
            } else {
                scan(a, t, e + 2)
            }
        } else if keep_then {
            seq![t[e]] + scan(a, t, e + 1)
        } else {
            seq![empty_block()] + scan(a, t, e + 1)
        }
    } else {
        seq![t[i]] + scan(a, t, i + 1)
    }
}

/// The token at position `i` of `s` with the groups inside it desugared
/// (macro bodies excepted).
pub open spec fn desugar_groups(a: bool, s: Seq<Tok>) -> Seq<Tok>
    decreases s, 0nat,
{
    Seq::new(
        s.len(),
        |i: int|
            if 0 <= i < s.len() && !is_macro_body(s, i) {
                match s[i] {
                    Tok::Group { delimiter, stream, span } => Tok::Group {
                        delimiter,
                        stream: desugar(a, stream),
                        span,
                    },
                    _ => s[i],
                }
            } else {
                s[i]
            },
    )
}

/// The tokens `s` as flavour `a` of the function sees them: every
/// `if _async` / `if _sync` expression, at any depth outside macro bodies,
/// replaced by the branch that belongs to the flavour, inner ones first.
pub open spec fn desugar(a: bool, s: Seq<Tok>) -> Seq<Tok>
    decreases s, 1nat,
{
    scan(a, desugar_groups(a, s), 0)
}

/// Some token of `s` from position `i` on, at any depth, is `_async` or `_sync`.
pub open spec fn mentions_marker_from(s: Seq<Tok>, i: int) -> bool
    decreases s, s.len() - i,
{
    if i < 0 || i >= s.len() {
        false
    } else {
        tok_mentions_marker(s[i]) || mentions_marker_from(s, i + 1)
    }
}

/// The token `t`, or a token inside it, is `_async` or `_sync`.
pub open spec fn tok_mentions_marker(t: Tok) -> bool
    decreases t, 0int,
{
    match t {
        Tok::Group { stream, .. } => mentions_marker_from(stream, 0),
        _ => is_marker(t),
    }
}

/// The token `t` with the inside of its group desugared for flavour `a`.
pub open spec fn desugar_tree(a: bool, t: Tok) -> Tok {
    match t {
        Tok::Group { delimiter, stream, span } => Tok::Group {
            delimiter,
            stream: desugar(a, stream),
            span,
        },
        _ => t,
    }
}

/// Without markers at the top level of `t` from `i` on, scanning copies.
proof fn lemma_scan_copies(a: bool, t: Seq<Tok>, i: int)
    requires
        0 <= i <= t.len(),
        forall|k: int| i <= k < t.len() ==> !is_marker(#[trigger] t[k]),
    ensures
        scan(a, t, i) == t.subrange(i, t.len() as int),
    decreases t.len() - i,
{
    if i < t.len() {
        assert(!is_marker(t[i + 1]) || i + 1 >= t.len());
        lemma_scan_copies(a, t, i + 1);
        assert(seq![t[i]] + t.subrange(i + 1, t.len() as int) =~= t.subrange(i, t.len() as int));
    } else {
        assert(t.subrange(i, t.len() as int) =~= Seq::<Tok>::empty());
    }
}

/// Facts about `mentions_marker_from` at one position.
pub proof fn lemma_mentions_at(s: Seq<Tok>, i: int, k: int)
    requires
        0 <= i <= k < s.len(),
        !mentions_marker_from(s, i),
    ensures
        !tok_mentions_marker(s[k]),
    decreases k - i,
{
    if i < k {
        lemma_mentions_at(s, i + 1, k);
    }
}

/// A sequence whose tokens mention no marker does not mention one.
pub proof fn lemma_no_mentions(s: Seq<Tok>, i: int)
    requires
        0 <= i,
        forall|k: int| i <= k < s.len() ==> !tok_mentions_marker(#[trigger] s[k]),
    ensures
        !mentions_marker_from(s, i),
    decreases s.len() - i,
{
    if i < s.len() {
        lemma_no_mentions(s, i + 1);
    }
}

/// Tokens in which neither `_async` nor `_sync` occurs come out of either
/// flavour unchanged.
pub proof fn law_unmarked_tokens_unchanged(a: bool, s: Seq<Tok>)
    requires
        !mentions_marker_from(s, 0),
    ensures
        desugar(a, s) == s,
    decreases s,
{
    let d = desugar_groups(a, s);
    assert forall|k: int| 0 <= k < s.len() implies #[trigger] d[k] == s[k] by {
        lemma_mentions_at(s, 0, k);
        if let Tok::Group { delimiter, stream, span } = s[k] {
            if !is_macro_body(s, k) {
                law_unmarked_tokens_unchanged(a, stream);
            }
        }
    }
    assert(d =~= s);
    assert forall|k: int| 0 <= k < s.len() implies !is_marker(#[trigger] s[k]) by {
        lemma_mentions_at(s, 0, k);
    }
    lemma_scan_copies(a, s, 0);
    assert(s.subrange(0, s.len() as int) =~= s);
}

/// `if _async { A } else { B }` keeps `A` in the async flavour and `B` in
/// the synchronous one; `if _sync` does the reverse. The kept block is
/// itself desugared.
pub proof fn law_marker_selects_branch(
    a: bool,
    kw_if: Tok,
    marker: Tok,
    then_block: Tok,
    kw_else: Tok,
    else_block: Tok,
)
    requires
        is_ident(kw_if, "if"@),
        is_marker(marker),
        is_group(then_block, Delimiter::Brace),
        is_ident(kw_else, "else"@),
        is_group(else_block, Delimiter::Brace),
    ensures
        desugar(a, seq![kw_if, marker, then_block, kw_else, else_block]) == seq![
            desugar_tree(a, if is_ident(marker, "_async"@) == a { then_block } else { else_block }),
        ],
{
    reveal_strlit("if");
    reveal_strlit("else");
    reveal_strlit("_async");
    reveal_strlit("_sync");
    reveal_strlit("macro_rules");
    let s = seq![kw_if, marker, then_block, kw_else, else_block];
    let d = desugar_groups(a, s);
    assert(!is_macro_body(s, 2));
    assert(!is_macro_body(s, 4));
    assert(d[0] == kw_if);
    assert(d[1] == marker);
    assert(d[2] == desugar_tree(a, then_block));
    assert(d[3] == kw_else);
    assert(d[4] == desugar_tree(a, else_block));
    assert(marker_at(d, 0));
    assert(!marker_at(d, 4));
    assert(scan(a, d, 5) == Seq::<Tok>::empty());
    if is_ident(marker, "_async"@) == a {
        assert(else_end(d, 4) == 5);
        assert(desugar(a, s) =~= seq![d[2]]);
    } else {
        assert(scan(a, d, 4) =~= seq![d[4]]);
        assert(desugar(a, s) =~= seq![d[4]]);
    }
}

/// Where each `{ .. }` group from position `i` up to `j` carries the
/// condition on, the search for the block of an `if` goes on past those
/// tokens.
proof fn lemma_then_block_skips(t: Seq<Tok>, i: int, j: int)
    requires
        0 <= i <= j <= t.len(),
        forall|k: int|
            i <= k < j ==> !is_group(#[trigger] t[k], Delimiter::Brace) || continues_condition(t, k + 1),
    ensures
        then_block(t, i) == then_block(t, j),
    decreases j - i,
{
    if i < j {
        assert(!is_group(t[i], Delimiter::Brace) || continues_condition(t, i + 1));
        lemma_then_block_skips(t, i + 1, j);
    }
}

/// In `if _async { A } else if c { B } else { C }` the async flavour keeps
/// `A` and the synchronous one keeps the whole rest of the chain,
/// `if c { B } else { C }`; `if _sync` does the reverse. (Stated for a
/// condition `c` without markers, in which each `{ .. }` group is followed
/// by `=`, as in `if let S { x } = v`, and that does not end in `!` or
/// `! name`, which would make `{ B }` the body of a macro.)
#[verifier::spinoff_prover]
#[verifier::rlimit(60)]
pub proof fn law_marker_selects_branch_of_else_if_chain(
    a: bool,
    kw_if: Tok,
    marker: Tok,
    then_block: Tok,
    kw_else: Tok,
    kw_if2: Tok,
    cond: Seq<Tok>,
    block2: Tok,
    kw_else2: Tok,
    block3: Tok,
)
    requires
        is_ident(kw_if, "if"@),
        is_marker(marker),
        is_group(then_block, Delimiter::Brace),
        is_ident(kw_else, "else"@),
        is_ident(kw_if2, "if"@),
        forall|k: int|
            0 <= k < cond.len() && is_group(#[trigger] cond[k], Delimiter::Brace) ==> k + 1 < cond.len()
                && is_punct(cond[k + 1], '='),
        !mentions_marker_from(cond, 0),
        cond.len() >= 1 ==> !is_punct(cond[cond.len() - 1], '!'),
        cond.len() >= 2 ==> !is_punct(cond[cond.len() - 2], '!'),
        is_group(block2, Delimiter::Brace),
        is_ident(kw_else2, "else"@),
        is_group(block3, Delimiter::Brace),
    ensures
        desugar(
            a,
            seq![kw_if, marker, then_block, kw_else, kw_if2] + cond + seq![block2, kw_else2, block3],
        ) == if is_ident(marker, "_async"@) == a {
            seq![desugar_tree(a, then_block)]
        } else {
            seq![kw_if2] + cond + seq![desugar_tree(a, block2), kw_else2, desugar_tree(a, block3)]
        },
{
    reveal_strlit("if");
    reveal_strlit("else");
    reveal_strlit("as");
    reveal_strlit("_async");
    reveal_strlit("_sync");
    reveal_strlit("macro_rules");
    let s = seq![kw_if, marker, then_block, kw_else, kw_if2] + cond + seq![block2, kw_else2, block3];
    let b = 5 + cond.len() as int;
    let d = desugar_groups(a, s);
    assert(s[0] == kw_if);
    assert(s[1] == marker);
    assert(s[2] == then_block);
    assert(s[3] == kw_else);
    assert(s[4] == kw_if2);
    assert(s[b] == block2);
    assert(s[b + 1] == kw_else2);
    assert(s[b + 2] == block3);
    assert forall|k: int| 5 <= k < b implies #[trigger] s[k] == cond[k - 5] && d[k] == s[k] && !is_marker(
        s[k],
    ) by {
        assert(s[k] == cond[k - 5]);
        lemma_mentions_at(cond, 0, k - 5);
        if let Tok::Group { stream, .. } = s[k] {
            law_unmarked_tokens_unchanged(a, stream);
        }
    }
    assert(!is_macro_body(s, 2));
    if cond.len() >= 1 {
        assert(s[b - 1] == cond[cond.len() - 1]);
    }
    if cond.len() >= 2 {
        assert(s[b - 2] == cond[cond.len() - 2]);
    }
    assert(!is_macro_body(s, b));
    assert(!is_macro_body(s, b + 2));
    assert(d[0] == kw_if);
    assert(d[1] == marker);
    assert(d[2] == desugar_tree(a, then_block));
    assert(d[3] == kw_else);
    assert(d[4] == kw_if2);
    assert(d[b] == desugar_tree(a, block2));
    assert(d[b + 1] == kw_else2);
    assert(d[b + 2] == desugar_tree(a, block3));
    assert(marker_at(d, 0));
    assert(scan(a, d, b + 3) == Seq::<Tok>::empty());
    if is_ident(marker, "_async"@) == a {
        assert("else"@.len() != "as"@.len());
        assert(!is_ident(d[b + 1], "as"@));
        assert(!(d[b + 1] is Punct));
        assert(!continues_condition(d, b + 1));
        assert(self::then_block(d, b) == b);
        assert forall|k: int| 5 <= k < b implies !is_group(#[trigger] d[k], Delimiter::Brace)
            || continues_condition(d, k + 1) by {
            assert(d[k] == cond[k - 5]);
            if is_group(cond[k - 5], Delimiter::Brace) {
                assert(s[k + 1] == cond[k - 4]);
                assert(d[k + 1] == s[k + 1]);
            }
        }
        lemma_then_block_skips(d, 5, b);
        assert(else_end(d, b + 2) == b + 3);
        assert(else_end(d, 4) == b + 3);
        assert(desugar(a, s) =~= seq![d[2]]);
    } else {
        assert forall|k: int| 4 <= k < d.len() implies !is_marker(#[trigger] d[k]) by {
            if 5 <= k < b {
                assert(s[k] == cond[k - 5]);
            } else if k == 4 || k == b + 1 {
                assert("if"@.len() != "_sync"@.len() && "if"@.len() != "_async"@.len());
                assert("else"@.len() != "_sync"@.len() && "else"@.len() != "_async"@.len());
            }
        }
        assert forall|k: int| 4 <= k < d.len() implies !#[trigger] marker_at(d, k) by {
            let mp = marker_pos(d, k);
            if mp < d.len() {
                assert(!is_marker(d[mp]));
            }
        }
        lemma_scan_copies(a, d, 4);
        assert(d.subrange(4, d.len() as int) =~= seq![kw_if2] + cond + seq![
            desugar_tree(a, block2),
            kw_else2,
            desugar_tree(a, block3),
        ]);
        assert(desugar(a, s) =~= d.subrange(4, d.len() as int));
    }
}

/// An `if` whose condition is more than the marker, as in
/// `if _async && x { A } else { B }`, is no flavour choice: it is left as
/// it is (the marker then names nothing in the function, and the compiler
/// refuses it). (Stated for a condition that goes on after the marker with
/// a punctuation mark other than `:`, and for tokens after it in which no
/// marker occurs.)
pub proof fn law_marker_in_a_larger_condition_is_left(
    a: bool,
    kw_if: Tok,
    marker: Tok,
    op: Tok,
    rest: Seq<Tok>,
)
    requires
        is_ident(kw_if, "if"@),
        is_marker(marker),
        op matches Tok::Punct { ch, .. } && ch != ':',
        !mentions_marker_from(rest, 0),
    ensures
        desugar(a, seq![kw_if, marker, op] + rest) == seq![kw_if, marker, op] + rest,
{
    reveal_strlit("if");
    reveal_strlit("_async");
    reveal_strlit("_sync");
    let s = seq![kw_if, marker, op] + rest;
    let d = desugar_groups(a, s);
    assert(s[0] == kw_if);
    assert(s[1] == marker);
    assert(s[2] == op);
    assert forall|k: int| 3 <= k < s.len() implies #[trigger] s[k] == rest[k - 3] && !is_marker(s[k])
        && d[k] == s[k] by {
        assert(s[k] == rest[k - 3]);
        lemma_mentions_at(rest, 0, k - 3);
        if let Tok::Group { stream, .. } = s[k] {
            law_unmarked_tokens_unchanged(a, stream);
        }
    }
    assert(d[0] == kw_if);
    assert(d[1] == marker);
    assert(d[2] == op);
    assert(d =~= s);
    assert(marker_pos(d, 0) == 1);
    assert(!path_sep_at(d, 2));
    assert(cond_end(d, 0) == 2);
    assert(!marker_at(d, 0));
    assert(!marker_at(d, 1)) by {
        assert("if"@.len() != "_async"@.len() && "if"@.len() != "_sync"@.len());
    }
    assert(!marker_at(d, 2));
    assert forall|k: int| 0 <= k < d.len() implies !#[trigger] marker_at(d, k) by {
        if k >= 3 {
            let mp = marker_pos(d, k);
            if mp < d.len() {
                assert(!is_marker(s[mp]));
            }
        }
    }
    lemma_scan_unmarked_prefix(a, d, 0, d.len() as int);
    assert(scan(a, d, d.len() as int) == Seq::<Tok>::empty());
    assert(d.subrange(0, d.len() as int) =~= d);
}

/// The body of a macro invocation `name!(..)` is left as it is, markers
/// included: the macro, not this library, gives its tokens a meaning.
pub proof fn law_macro_bodies_are_left(a: bool, name: Tok, bang: Tok, body: Tok)
    requires
        is_macro_name(name),
        is_punct(bang, '!'),
        body is Group,
    ensures
        desugar(a, seq![name, bang, body]) == seq![name, bang, body],
{
    reveal_strlit("if");
    let s = seq![name, bang, body];
    let d = desugar_groups(a, s);
    assert(is_macro_body(s, 2));
    assert(d =~= s);
    assert(!is_ident(name, "if"@)) by {
        assert(is_keyword("if"@));
    }
    assert(!marker_at(d, 0));
    assert(!marker_at(d, 1));
    assert(!marker_at(d, 2));
    assert(scan(a, d, 3) == Seq::<Tok>::empty());
    assert(scan(a, d, 2) =~= seq![body]);
    assert(scan(a, d, 1) =~= seq![bang, body]);
    assert(scan(a, d, 0) =~= s);
}

/// Inside a group that is no macro body, such as the body of a function
/// or a block, each flavour is chosen as it would be on its own.
pub proof fn law_markers_inside_groups_are_desugared(
    a: bool,
    delimiter: Delimiter,
    inner: Seq<Tok>,
    span: u64,
)
    ensures
        desugar(a, seq![Tok::Group { delimiter, stream: inner, span }]) == seq![
            Tok::Group { delimiter, stream: desugar(a, inner), span },
        ],
{
    let s = seq![Tok::Group { delimiter, stream: inner, span }];
    let d = desugar_groups(a, s);
    assert(!is_macro_body(s, 0));
    assert(d[0] == Tok::Group { delimiter, stream: desugar(a, inner), span });
    assert(!marker_at(d, 0));
    assert(scan(a, d, 1) == Seq::<Tok>::empty());
    assert(scan(a, d, 0) =~= seq![d[0]]);
}

/// Where no `if` with a marker starts from position `i` up to `m`, scanning
/// copies those tokens.
proof fn lemma_scan_unmarked_prefix(a: bool, t: Seq<Tok>, i: int, m: int)
    requires
        0 <= i <= m <= t.len(),
        forall|k: int| i <= k < m ==> !#[trigger] marker_at(t, k),
    ensures
        scan(a, t, i) == t.subrange(i, m) + scan(a, t, m),
    decreases m - i,
{
    if i < m {
        assert(!marker_at(t, i));
        lemma_scan_unmarked_prefix(a, t, i + 1, m);
        assert(seq![t[i]] + (t.subrange(i + 1, m) + scan(a, t, m)) =~= t.subrange(i, m) + scan(
            a,
            t,
            m,
        ));
    } else {
        assert(t.subrange(i, m) =~= Seq::<Tok>::empty());
    }
}

/// The tokens around an `if _async { A } else { B }` expression are left
/// as they are: in `P if _async { A } else { B } Q`, where neither `P` nor
/// `Q` mentions a marker, flavour `a` gets `P`, the kept block, and `Q`.
pub proof fn law_tokens_around_marker_if_are_kept(
    a: bool,
    pre: Seq<Tok>,
    kw_if: Tok,
    marker: Tok,
    then_block: Tok,
    kw_else: Tok,
    else_block: Tok,
    post: Seq<Tok>,
)
    requires
        !mentions_marker_from(pre, 0),
        is_ident(kw_if, "if"@),
        is_marker(marker),
        is_group(then_block, Delimiter::Brace),
        is_ident(kw_else, "else"@),
        is_group(else_block, Delimiter::Brace),
        !mentions_marker_from(post, 0),
    ensures
        desugar(a, pre + seq![kw_if, marker, then_block, kw_else, else_block] + post) == pre + seq![
            desugar_tree(a, if is_ident(marker, "_async"@) == a { then_block } else { else_block }),
        ] + post,
{
    reveal_strlit("if");
    reveal_strlit("else");
    reveal_strlit("_async");
    reveal_strlit("_sync");
    reveal_strlit("macro_rules");
    let x = seq![kw_if, marker, then_block, kw_else, else_block];
    let s = pre + x + post;
    let n = pre.len() as int;
    let d = desugar_groups(a, s);
    assert forall|k: int| 0 <= k < n implies #[trigger] d[k] == s[k] && s[k] == pre[k] && !is_marker(
        pre[k],
    ) by {
        assert(s[k] == pre[k]);
        lemma_mentions_at(pre, 0, k);
        if let Tok::Group { stream, .. } = s[k] {
            law_unmarked_tokens_unchanged(a, stream);
        }
    }
    assert forall|k: int| n + 5 <= k < s.len() implies #[trigger] d[k] == s[k] && s[k] == post[k - n - 5]
        && !is_marker(post[k - n - 5]) by {
        assert(s[k] == post[k - n - 5]);
        lemma_mentions_at(post, 0, k - n - 5);
        if let Tok::Group { stream, .. } = s[k] {
            law_unmarked_tokens_unchanged(a, stream);
        }
    }
    assert(s[n] == kw_if);
    assert(s[n + 1] == marker);
    assert(s[n + 2] == then_block);
    assert(s[n + 3] == kw_else);
    assert(s[n + 4] == else_block);
    assert(!is_macro_body(s, n + 2));
    assert(!is_macro_body(s, n + 4));
    assert(d[n] == kw_if);
    assert(d[n + 1] == marker);
    assert(d[n + 2] == desugar_tree(a, then_block));
    assert(d[n + 3] == kw_else);
    assert(d[n + 4] == desugar_tree(a, else_block));
    assert forall|k: int| 0 <= k < n implies !#[trigger] marker_at(d, k) by {
        let mp = marker_pos(d, k);
        if path_sep_at(d, k + 1) {
            assert(k + 2 < n);
        }
        assert(mp <= n);
        if mp < n {
            assert(!is_marker(d[mp]));
        } else {
            assert(d[mp] == kw_if);
        }
    }
    lemma_scan_unmarked_prefix(a, d, 0, n);
    assert(marker_pos(d, n) == n + 1);
    assert(cond_end(d, n) == n + 2);
    assert(marker_at(d, n));
    assert forall|k: int| n + 5 <= k < d.len() implies !is_marker(#[trigger] d[k]) by {}
    lemma_scan_copies(a, d, n + 5);
    assert(d.subrange(n + 5, d.len() as int) =~= post);
    assert(d.subrange(0, n) =~= pre);
    if is_ident(marker, "_async"@) == a {
        assert(else_end(d, n + 4) == n + 5);
        assert(scan(a, d, n) =~= seq![d[n + 2]] + post);
    } else {
        assert(!marker_at(d, n + 4));
        assert(scan(a, d, n + 4) =~= seq![d[n + 4]] + post);
        assert(scan(a, d, n) =~= seq![d[n + 4]] + post);
    }
    assert(desugar(a, s) == scan(a, d, 0));
}

/// `if _async { A }` without `else` keeps `A` in the async flavour and
/// leaves an empty block in the synchronous one; `if _sync` does the
/// reverse.
pub proof fn law_marker_without_else(a: bool, kw_if: Tok, marker: Tok, then_block: Tok)
    requires
        is_ident(kw_if, "if"@),
        is_marker(marker),
        is_group(then_block, Delimiter::Brace),
    ensures
        desugar(a, seq![kw_if, marker, then_block]) == if is_ident(marker, "_async"@) == a {
            seq![desugar_tree(a, then_block)]
        } else {
            seq![empty_block()]
        },
{
    reveal_strlit("if");
    reveal_strlit("_async");
    reveal_strlit("_sync");
    reveal_strlit("macro_rules");
    let s = seq![kw_if, marker, then_block];
    let d = desugar_groups(a, s);
    assert(!is_macro_body(s, 2));
    assert(d[0] == kw_if);
    assert(d[1] == marker);
    assert(d[2] == desugar_tree(a, then_block));
    assert(marker_at(d, 0));
    assert(scan(a, d, 3) == Seq::<Tok>::empty());
    if is_ident(marker, "_async"@) == a {
        assert(desugar(a, s) =~= seq![d[2]]);
    } else {
        assert(desugar(a, s) =~= seq![empty_block()]);
    }
}

/// Up to a position before which no `if` stands, scanning copies.
pub proof fn lemma_scan_prefix(a: bool, t: Seq<Tok>, i: int, m: int)
    requires
        0 <= i <= m <= t.len(),
        forall|k: int| i <= k < m ==> !is_ident(#[trigger] t[k], "if"@),
    ensures
        scan(a, t, i) == t.subrange(i, m) + scan(a, t, m),
    decreases m - i,
{
    if i < m {
        lemma_scan_prefix(a, t, i + 1, m);
        assert(seq![t[i]] + (t.subrange(i + 1, m) + scan(a, t, m)) =~= t.subrange(i, m) + scan(
            a,
            t,
            m,
        ));
    } else {
        assert(t.subrange(i, m) =~= Seq::<Tok>::empty());
        assert(Seq::<Tok>::empty() + scan(a, t, m) =~= scan(a, t, m));
    }
}

/// A token that is no group keeps its place through `desugar_groups`.
pub proof fn lemma_desugar_groups_keeps(a: bool, s: Seq<Tok>, k: int)
    requires
        0 <= k < s.len(),
        !(s[k] is Group),
    ensures
        desugar_groups(a, s).len() == s.len(),
        desugar_groups(a, s)[k] == s[k],
{
}

/// `t` with `_async` and `_sync` exchanged, at any depth.
pub open spec fn swap_marker(t: Tok) -> Tok
    decreases t,
{
    match t {
        Tok::Ident { name, span } => if name == "_async"@ {
            Tok::Ident { name: "_sync"@, span }
        } else if name == "_sync"@ {
            Tok::Ident { name: "_async"@, span }
        } else {
            t
        },
        Tok::Group { delimiter, stream, span } => Tok::Group {
            delimiter,
            stream: swap_markers(stream),
            span,
        },
        _ => t,
    }
}

/// `s` with `_async` and `_sync` exchanged, at any depth.
pub open spec fn swap_markers(s: Seq<Tok>) -> Seq<Tok>
    decreases s,
{
    Seq::new(
        s.len(),
        |i: int|
            if 0 <= i < s.len() {
                swap_marker(s[i])
            } else {
                empty_block()
            },
    )
}

/// Neither marker is a keyword.
proof fn lemma_markers_are_no_keywords()
    ensures
        !is_keyword("_async"@),
        !is_keyword("_sync"@),
{
    reveal_strlit("_async");
    reveal_strlit("_sync");
    reveal_strlit("as");
    reveal_strlit("async");
    reveal_strlit("await");
    reveal_strlit("break");
    reveal_strlit("const");
    reveal_strlit("continue");
    reveal_strlit("crate");
    reveal_strlit("dyn");
    reveal_strlit("else");
    reveal_strlit("enum");
    reveal_strlit("extern");
    reveal_strlit("false");
    reveal_strlit("fn");
    reveal_strlit("for");
    reveal_strlit("if");
    reveal_strlit("impl");
    reveal_strlit("in");
    reveal_strlit("let");
    reveal_strlit("loop");
    reveal_strlit("match");
    reveal_strlit("mod");
    reveal_strlit("move");
    reveal_strlit("mut");
    reveal_strlit("pub");
    reveal_strlit("ref");
    reveal_strlit("return");
    reveal_strlit("self");
    reveal_strlit("Self");
    reveal_strlit("static");
    reveal_strlit("struct");
    reveal_strlit("super");
    reveal_strlit("trait");
    reveal_strlit("true");
    reveal_strlit("type");
    reveal_strlit("unsafe");
    reveal_strlit("use");
    reveal_strlit("where");
    reveal_strlit("while");
    reveal_strlit("abstract");
    reveal_strlit("become");
    reveal_strlit("box");
    reveal_strlit("do");
    reveal_strlit("final");
    reveal_strlit("macro");
    reveal_strlit("override");
    reveal_strlit("priv");
    reveal_strlit("typeof");
    reveal_strlit("unsized");
    reveal_strlit("virtual");
    reveal_strlit("yield");
    reveal_strlit("try");
    assert("as"@.len() != "_async"@.len());
    assert("async"@.len() != "_async"@.len());
    assert("await"@.len() != "_async"@.len());
    assert("break"@.len() != "_async"@.len());
    assert("const"@.len() != "_async"@.len());
    assert("continue"@.len() != "_async"@.len());
    assert("crate"@.len() != "_async"@.len());
    assert("dyn"@.len() != "_async"@.len());
    assert("else"@.len() != "_async"@.len());
    assert("enum"@.len() != "_async"@.len());
    assert("extern"@[0] != "_async"@[0]);
    assert("false"@.len() != "_async"@.len());
    assert("fn"@.len() != "_async"@.len());
    assert("for"@.len() != "_async"@.len());
    assert("if"@.len() != "_async"@.len());
    assert("impl"@.len() != "_async"@.len());
    assert("in"@.len() != "_async"@.len());
    assert("let"@.len() != "_async"@.len());
    assert("loop"@.len() != "_async"@.len());
    assert("match"@.len() != "_async"@.len());
    assert("mod"@.len() != "_async"@.len());
    assert("move"@.len() != "_async"@.len());
    assert("mut"@.len() != "_async"@.len());
    assert("pub"@.len() != "_async"@.len());
    assert("ref"@.len() != "_async"@.len());
    assert("return"@[0] != "_async"@[0]);
    assert("self"@.len() != "_async"@.len());
    assert("Self"@.len() != "_async"@.len());
    assert("static"@[0] != "_async"@[0]);
    assert("struct"@[0] != "_async"@[0]);
    assert("super"@.len() != "_async"@.len());
    assert("trait"@.len() != "_async"@.len());
    assert("true"@.len() != "_async"@.len());
    assert("type"@.len() != "_async"@.len());
    assert("unsafe"@[0] != "_async"@[0]);
    assert("use"@.len() != "_async"@.len());
    assert("where"@.len() != "_async"@.len());
    assert("while"@.len() != "_async"@.len());
    assert("abstract"@.len() != "_async"@.len());
    assert("become"@[0] != "_async"@[0]);
    assert("box"@.len() != "_async"@.len());
    assert("do"@.len() != "_async"@.len());
    assert("final"@.len() != "_async"@.len());
    assert("macro"@.len() != "_async"@.len());
    assert("override"@.len() != "_async"@.len());
    assert("priv"@.len() != "_async"@.len());
    assert("typeof"@[0] != "_async"@[0]);
    assert("unsized"@.len() != "_async"@.len());
    assert("virtual"@.len() != "_async"@.len());
    assert("yield"@.len() != "_async"@.len());
    assert("try"@.len() != "_async"@.len());
    assert("as"@.len() != "_sync"@.len());
    assert("async"@[0] != "_sync"@[0]);
    assert("await"@[0] != "_sync"@[0]);
    assert("break"@[0] != "_sync"@[0]);
    assert("const"@[0] != "_sync"@[0]);
    assert("continue"@.len() != "_sync"@.len());
    assert("crate"@[0] != "_sync"@[0]);
    assert("dyn"@.len() != "_sync"@.len());
    assert("else"@.len() != "_sync"@.len());
    assert("enum"@.len() != "_sync"@.len());
    assert("extern"@.len() != "_sync"@.len());
    assert("false"@[0] != "_sync"@[0]);
    assert("fn"@.len() != "_sync"@.len());
    assert("for"@.len() != "_sync"@.len());
    assert("if"@.len() != "_sync"@.len());
    assert("impl"@.len() != "_sync"@.len());
    assert("in"@.len() != "_sync"@.len());
    assert("let"@.len() != "_sync"@.len());
    assert("loop"@.len() != "_sync"@.len());
    assert("match"@[0] != "_sync"@[0]);
    assert("mod"@.len() != "_sync"@.len());
    assert("move"@.len() != "_sync"@.len());
    assert("mut"@.len() != "_sync"@.len());
    assert("pub"@.len() != "_sync"@.len());
    assert("ref"@.len() != "_sync"@.len());
    assert("return"@.len() != "_sync"@.len());
    assert("self"@.len() != "_sync"@.len());
    assert("Self"@.len() != "_sync"@.len());
    assert("static"@.len() != "_sync"@.len());
    assert("struct"@.len() != "_sync"@.len());
    assert("super"@[0] != "_sync"@[0]);
    assert("trait"@[0] != "_sync"@[0]);
    assert("true"@.len() != "_sync"@.len());
    assert("type"@.len() != "_sync"@.len());
    assert("unsafe"@.len() != "_sync"@.len());
    assert("use"@.len() != "_sync"@.len());
    assert("where"@[0] != "_sync"@[0]);
    assert("while"@[0] != "_sync"@[0]);
    assert("abstract"@.len() != "_sync"@.len());
    assert("become"@.len() != "_sync"@.len());
    assert("box"@.len() != "_sync"@.len());
    assert("do"@.len() != "_sync"@.len());
    assert("final"@[0] != "_sync"@[0]);
    assert("macro"@[0] != "_sync"@[0]);
    assert("override"@.len() != "_sync"@.len());
    assert("priv"@.len() != "_sync"@.len());
    assert("typeof"@.len() != "_sync"@.len());
    assert("unsized"@.len() != "_sync"@.len());
    assert("virtual"@.len() != "_sync"@.len());
    assert("yield"@[0] != "_sync"@[0]);
    assert("try"@.len() != "_sync"@.len());
}

/// What exchanging the markers keeps of one token.
proof fn lemma_swap_marker_keeps(t: Tok)
    ensures
        t is Ident <==> swap_marker(t) is Ident,
        t is Group <==> swap_marker(t) is Group,
        is_group(swap_marker(t), Delimiter::Brace) == is_group(t, Delimiter::Brace),
        is_punct(swap_marker(t), '!') == is_punct(t, '!'),
        is_ident(swap_marker(t), "if"@) == is_ident(t, "if"@),
        is_ident(swap_marker(t), "else"@) == is_ident(t, "else"@),
        is_ident(swap_marker(t), "as"@) == is_ident(t, "as"@),
        t is Punct ==> swap_marker(t) == t,
        swap_marker(t) is Punct ==> swap_marker(t) == t,
        is_ident(swap_marker(t), "macro_rules"@) == is_ident(t, "macro_rules"@),
        is_macro_name(swap_marker(t)) == is_macro_name(t),
        is_marker(swap_marker(t)) == is_marker(t),
        is_marker(t) ==> (is_ident(swap_marker(t), "_async"@) == !is_ident(t, "_async"@)),
{
    reveal_strlit("_async");
    reveal_strlit("_sync");
    reveal_strlit("if");
    reveal_strlit("else");
    reveal_strlit("as");
    reveal_strlit("macro_rules");
    assert("_async"@.len() == 6);
    assert("_sync"@.len() == 5);
    assert("if"@.len() == 2);
    assert("else"@.len() == 4);
    assert("macro_rules"@.len() == 11);
    lemma_markers_are_no_keywords();
}

/// Exchanging the markers commutes with taking parts of a sequence.
proof fn lemma_swap_markers_parts(s: Seq<Tok>, i: int)
    requires
        0 <= i < s.len(),
    ensures
        swap_markers(s).len() == s.len(),
        swap_markers(s)[i] == swap_marker(s[i]),
{
}

/// Exchanging the markers keeps the length.
proof fn lemma_swap_markers_len(s: Seq<Tok>)
    ensures
        swap_markers(s).len() == s.len(),
{
}

/// Macro bodies stay macro bodies when the markers are exchanged.
proof fn lemma_swap_macro_body(s: Seq<Tok>, i: int)
    requires
        0 <= i < s.len(),
    ensures
        is_macro_body(swap_markers(s), i) == is_macro_body(s, i),
{
    if i >= 1 {
        lemma_swap_marker_keeps(s[i - 1]);
    }
    if i >= 2 {
        lemma_swap_marker_keeps(s[i - 2]);
    }
    if i >= 3 {
        lemma_swap_marker_keeps(s[i - 3]);
    }
}

/// `brace_before_semicolon` does not see the markers.
proof fn lemma_swap_brace_before_semicolon(t: Seq<Tok>, j: int)
    ensures
        brace_before_semicolon(swap_markers(t), j) == brace_before_semicolon(t, j),
    decreases t.len() - j,
{
    lemma_swap_markers_len(t);
    if 0 <= j < t.len() {
        lemma_swap_marker_keeps(t[j]);
        lemma_swap_brace_before_semicolon(t, j + 1);
    }
}

/// `then_block` does not see the markers.
proof fn lemma_swap_then_block(t: Seq<Tok>, k: int)
    ensures
        then_block(swap_markers(t), k) == then_block(t, k),
    decreases t.len() - k,
{
    lemma_swap_markers_len(t);
    if 0 <= k < t.len() {
        lemma_swap_marker_keeps(t[k]);
        if k + 1 < t.len() {
            lemma_swap_marker_keeps(t[k + 1]);
        }
        lemma_swap_brace_before_semicolon(t, k + 2);
        assert(continues_condition(swap_markers(t), k + 1) == continues_condition(t, k + 1));
        lemma_swap_then_block(t, k + 1);
    }
}

/// `else_end` does not see the markers.
proof fn lemma_swap_else_end(t: Seq<Tok>, i: int)
    ensures
        else_end(swap_markers(t), i) == else_end(t, i),
    decreases t.len() - i,
{
    lemma_swap_markers_len(t);
    if 0 <= i < t.len() {
        lemma_swap_markers_parts(t, i);
        lemma_swap_marker_keeps(t[i]);
        lemma_swap_then_block(t, i + 1);
        lemma_then_block_bounds(t, i + 1);
        let j = then_block(t, i + 1);
        if 0 <= j && j + 1 < t.len() {
            lemma_swap_markers_parts(t, j + 1);
            lemma_swap_marker_keeps(t[j + 1]);
            lemma_swap_else_end(t, j + 2);
        }
    }
}

/// Exchanging the markers of a join.
proof fn lemma_swap_markers_add(x: Seq<Tok>, y: Seq<Tok>)
    ensures
        swap_markers(x + y) == swap_markers(x) + swap_markers(y),
{
    assert(swap_markers(x + y) =~= swap_markers(x) + swap_markers(y));
}

/// Scanning with the markers exchanged, for the other flavour.
proof fn lemma_swap_scan(a: bool, t: Seq<Tok>, i: int)
    requires
        0 <= i,
    ensures
        scan(!a, swap_markers(t), i) == swap_markers(scan(a, t, i)),
    decreases t.len() - i,
{
    let u = swap_markers(t);
    if i >= t.len() {
        assert(swap_markers(Seq::<Tok>::empty()) =~= Seq::<Tok>::empty());
    } else {
        lemma_swap_markers_len(t);
        assert forall|k: int| 0 <= k < t.len() && (#[trigger] u[k] is Punct || t[k] is Punct)
            implies u[k] == t[k] by {
            lemma_swap_marker_keeps(t[k]);
        }
        lemma_swap_marker_keeps(t[i]);
        assert(path_sep_at(u, i + 1) == path_sep_at(t, i + 1));
        let m = marker_pos(t, i);
        assert(marker_pos(u, i) == m);
        assert(path_sep_at(u, m + 1) == path_sep_at(t, m + 1));
        if m + 3 < t.len() {
            assert(is_punct(u[m + 3], '<') == is_punct(t[m + 3], '<'));
        }
        lemma_angle_end_puncts(u, t, m + 3, 0);
        assert(cond_end(u, i) == cond_end(t, i));
        lemma_swap_markers_parts(t, i);
        if m < t.len() {
            lemma_swap_marker_keeps(t[m]);
            lemma_swap_markers_parts(t, m);
        }
        if 0 <= cond_end(t, i) < t.len() {
            lemma_swap_marker_keeps(t[cond_end(t, i)]);
            lemma_swap_markers_parts(t, cond_end(t, i));
        }
        if 0 <= cond_end(t, i) + 1 < t.len() {
            lemma_swap_marker_keeps(t[cond_end(t, i) + 1]);
            lemma_swap_markers_parts(t, cond_end(t, i) + 1);
        }
        assert(is_ident(u[i], "if"@) == is_ident(t[i], "if"@));
        assert(m < t.len() ==> is_marker(u[m]) == is_marker(t[m]));
        assert(0 <= cond_end(t, i) < t.len() ==> is_group(u[cond_end(t, i)], Delimiter::Brace) == is_group(t[cond_end(t, i)], Delimiter::Brace));
        assert(u.len() == t.len());
        assert((marker_pos(u, i) < u.len()) == (marker_pos(t, i) < t.len()));
        assert((cond_end(u, i) < u.len()) == (cond_end(t, i) < t.len()));
        assert(marker_pos(t, i) < t.len() ==> is_marker(u[marker_pos(u, i)]) == is_marker(t[marker_pos(t, i)]));
        if marker_at(t, i) {
            lemma_cond_end_bounds(t, i);
            assert(is_group(u[cond_end(u, i)], Delimiter::Brace));
            assert(is_marker(u[marker_pos(u, i)]));
            assert(is_ident(u[i], "if"@));
            assert(marker_at(u, i));
        } else if marker_at(u, i) {
            lemma_cond_end_bounds(t, i);
            assert(false);
        }
        assert(marker_at(u, i) == marker_at(t, i));
        if marker_at(t, i) {
            lemma_cond_end_bounds(t, i);
            let e = cond_end(t, i);
            let keep_then = is_ident(t[m], "_async"@) == a;
            assert((is_ident(u[m], "_async"@) == !a) == keep_then);
            if e + 1 < t.len() && is_ident(t[e + 1], "else"@) {
                if keep_then {
                    lemma_else_end_bounds(t, e + 2);
                    lemma_swap_else_end(t, e + 2);
                    lemma_swap_scan(a, t, else_end(t, e + 2));
                    lemma_swap_markers_add(seq![t[e]], scan(a, t, else_end(t, e + 2)));
                    assert(swap_markers(seq![t[e]]) =~= seq![u[e]]);
                } else {
                    lemma_swap_scan(a, t, e + 2);
                }
            } else {
                lemma_swap_scan(a, t, e + 1);
                if keep_then {
                    lemma_swap_markers_add(seq![t[e]], scan(a, t, e + 1));
                    assert(swap_markers(seq![t[e]]) =~= seq![u[e]]);
                } else {
                    lemma_swap_markers_add(seq![empty_block()], scan(a, t, e + 1));
                    assert(swap_markers(Seq::<Tok>::empty()) =~= Seq::<Tok>::empty());
                    assert(swap_marker(empty_block()) == empty_block());
                    assert(swap_markers(seq![empty_block()]) =~= seq![empty_block()]);
                }
            }
        } else {
            lemma_swap_scan(a, t, i + 1);
            lemma_swap_markers_add(seq![t[i]], scan(a, t, i + 1));
            assert(swap_markers(seq![t[i]]) =~= seq![u[i]]);
        }
    }
}

/// Desugaring the groups with the markers exchanged, for the other flavour.
proof fn lemma_swap_desugar_groups(a: bool, s: Seq<Tok>)
    ensures
        desugar_groups(!a, swap_markers(s)) == swap_markers(desugar_groups(a, s)),
    decreases s, 0nat,
{
    let u = swap_markers(s);
    let l = desugar_groups(!a, u);
    let r = swap_markers(desugar_groups(a, s));
    assert forall|k: int| 0 <= k < s.len() implies #[trigger] l[k] == r[k] by {
        lemma_swap_macro_body(s, k);
        lemma_swap_marker_keeps(s[k]);
        if let Tok::Group { delimiter, stream, span } = s[k] {
            if !is_macro_body(s, k) {
                law_desugar_flavours_mirror(a, stream);
            }
        }
    }
    assert(l =~= r);
}

/// The two markers mirror each other: exchanging `_async` and `_sync` in
/// the tokens and taking the other flavour gives the same tokens with the
/// markers exchanged.
pub proof fn law_desugar_flavours_mirror(a: bool, s: Seq<Tok>)
    ensures
        desugar(!a, swap_markers(s)) == swap_markers(desugar(a, s)),
    decreases s, 1nat,
{
    lemma_swap_desugar_groups(a, s);
    lemma_swap_scan(a, desugar_groups(a, s), 0);
}

/// Every `_async` or `_sync` at the top level of `s` is the condition of an
/// `if` followed by a block.
pub open spec fn markers_in_place_top(s: Seq<Tok>) -> bool {
    forall|k: int| 0 <= k < s.len() && is_marker(#[trigger] s[k]) ==> marker_placed(s, 0, k)
}

/// The marker at position `k` of `s` is the condition of an `if` that stands
/// at or after position `i`.
pub open spec fn marker_placed(s: Seq<Tok>, i: int, k: int) -> bool {
    ||| (i <= k - 1 && marker_at(s, k - 1) && marker_pos(s, k - 1) == k)
    ||| (i <= k - 3 && marker_at(s, k - 3) && marker_pos(s, k - 3) == k)
}

/// At every depth outside macro bodies, `_async` and `_sync` stand only as
/// the condition of an `if` followed by a block.
pub open spec fn markers_in_place(s: Seq<Tok>) -> bool
    decreases s,
{
    &&& markers_in_place_top(s)
    &&& forall|k: int|
        0 <= k < s.len() ==> match #[trigger] s[k] {
            Tok::Group { stream, .. } => is_macro_body(s, k) || markers_in_place(stream),
            _ => true,
        }
}

/// Desugaring the inside of the group `t` again changes nothing.
pub open spec fn settled(a: bool, t: Tok) -> bool {
    t is Group ==> desugar(a, t->Group_stream) == t->Group_stream
}

/// A scan lands at the end, just after a block, or just after an `else`
/// that follows a block.
pub open spec fn lands_at(t: Seq<Tok>, p: int) -> bool {
    ||| p >= t.len()
    ||| (p >= 1 && is_group(t[p - 1], Delimiter::Brace))
    ||| (p >= 2 && is_ident(t[p - 1], "else"@) && is_group(t[p - 2], Delimiter::Brace))
}

/// An `else` branch that starts after a block and its `else` ends where a
/// scan lands.
proof fn lemma_else_end_after(t: Seq<Tok>, m: int)
    requires
        2 <= m <= t.len(),
        is_ident(t[m - 1], "else"@),
        is_group(t[m - 2], Delimiter::Brace),
    ensures
        lands_at(t, else_end(t, m)),
    decreases t.len() - m,
{
    reveal_strlit("if");
    reveal_strlit("else");
    if m < t.len() && !is_group(t[m], Delimiter::Brace) && is_ident(t[m], "if"@) {
        let j = then_block(t, m + 1);
        lemma_then_block_bounds(t, m + 1);
        if j < t.len() && j + 1 < t.len() && is_ident(t[j + 1], "else"@) {
            lemma_else_end_after(t, j + 2);
        }
    }
}

/// A scan that lands at `p` leaves no marker behind whose `if` it skipped.
proof fn lemma_landing(t: Seq<Tok>, i: int, p: int)
    requires
        0 <= i < p <= t.len(),
        lands_at(t, p),
        forall|k: int| i <= k < t.len() && is_marker(#[trigger] t[k]) ==> marker_placed(t, i, k),
    ensures
        forall|k: int| p <= k < t.len() && is_marker(#[trigger] t[k]) ==> marker_placed(t, p, k),
{
    reveal_strlit("if");
    reveal_strlit("else");
    assert("else"@.len() != "if"@.len());
    assert forall|k: int| p <= k < t.len() && is_marker(#[trigger] t[k]) implies marker_placed(
        t,
        p,
        k,
    ) by {
        assert(marker_placed(t, i, k));
        if k - 1 >= i && marker_at(t, k - 1) && marker_pos(t, k - 1) == k {
            if k - 1 < p {
                assert(p == k);
            }
        } else {
            let j = k - 3;
            assert(path_sep_at(t, j + 1));
            if j < p {
                assert(p - 1 == j || p - 1 == j + 1 || p - 1 == j + 2);
            }
        }
    }
}

/// How many tokens before position `q` make the group there a macro body.
pub open spec fn macro_ctx(t: Seq<Tok>, q: int) -> int {
    if 2 <= q && is_punct(t[q - 1], '!') && is_macro_name(t[q - 2]) {
        2
    } else {
        3
    }
}

/// The tokens `pre` already written end with the tokens of `t` that make
/// a group at or just after position `i` a macro body.
pub open spec fn context_ok(pre: Seq<Tok>, t: Seq<Tok>, i: int) -> bool {
    forall|q: int|
        i <= q < i + 3 && q < t.len() && #[trigger] is_macro_body(t, q) ==> {
            &&& (q - 1 < i ==> i - q + 1 <= pre.len() && pre[pre.len() - (i - q + 1)] == t[q - 1])
            &&& (q - 2 < i ==> i - q + 2 <= pre.len() && pre[pre.len() - (i - q + 2)] == t[q - 2])
            &&& (macro_ctx(t, q) == 3 && q - 3 < i ==> i - q + 3 <= pre.len() && pre[pre.len() - (i
                - q + 3)] == t[q - 3])
        }
}

/// After a landing, no macro body needs tokens written before.
proof fn lemma_landing_context(pre: Seq<Tok>, t: Seq<Tok>, p: int)
    requires
        0 <= p,
        lands_at(t, p),
    ensures
        context_ok(pre, t, p),
{
    reveal_strlit("else");
    reveal_strlit("macro_rules");
    assert("else"@.len() != "macro_rules"@.len());
    assert forall|q: int| p <= q < p + 3 && q < t.len() && #[trigger] is_macro_body(t, q) implies {
        &&& (q - 1 < p ==> p - q + 1 <= pre.len() && pre[pre.len() - (p - q + 1)] == t[q - 1])
        &&& (q - 2 < p ==> p - q + 2 <= pre.len() && pre[pre.len() - (p - q + 2)] == t[q - 2])
        &&& (macro_ctx(t, q) == 3 && q - 3 < p ==> p - q + 3 <= pre.len() && pre[pre.len() - (p - q
            + 3)] == t[q - 3])
    } by {
        lemma_else_is_keyword();
        if q == p {
            assert(false);
        } else if q == p + 1 {
            if macro_ctx(t, q) == 2 {
                assert(false);
            } else {
                assert(false);
            }
        } else {
            if macro_ctx(t, q) == 3 {
                assert(false);
            }
        }
    }
}

/// `else` is a keyword.
proof fn lemma_else_is_keyword()
    ensures
        is_keyword("else"@),
{
}

/// Scanning from a position where no misplaced marker stands gives tokens
/// without markers at the top level, each settled or, after the tokens
/// `pre` written before, a macro body.
proof fn lemma_scan_settles(a: bool, t: Seq<Tok>, i: int, pre: Seq<Tok>)
    requires
        0 <= i <= t.len(),
        forall|k: int| i <= k < t.len() && is_marker(#[trigger] t[k]) ==> marker_placed(t, i, k),
        forall|k: int| i <= k < t.len() ==> settled(a, #[trigger] t[k]) || is_macro_body(t, k),
        context_ok(pre, t, i),
    ensures
        forall|p: int|
            0 <= p < scan(a, t, i).len() ==> !is_marker(#[trigger] scan(a, t, i)[p]) && (settled(
                a,
                scan(a, t, i)[p],
            ) || is_macro_body(pre + scan(a, t, i), pre.len() + p)),
    decreases t.len() - i,
{
    reveal_strlit("if");
    reveal_strlit("else");
    reveal_strlit("_async");
    reveal_strlit("_sync");
    assert("else"@.len() != "if"@.len());
    if i < t.len() {
        let o = scan(a, t, i);
        assert(settled(a, empty_block())) by {
            assert(desugar_groups(a, Seq::<Tok>::empty()) =~= Seq::<Tok>::empty());
        }
        if is_marker(t[i]) {
            assert(marker_placed(t, i, i));
        }
        if marker_at(t, i) {
            lemma_cond_end_bounds(t, i);
            let m = marker_pos(t, i);
            let e = cond_end(t, i);
            let keep_then = is_ident(t[m], "_async"@) == a;
            assert(!is_macro_body(t, e)) by {
                reveal_strlit("macro_rules");
                if e == m + 1 {
                    assert(is_marker(t[m]));
                    assert(!is_punct(t[m - 1], '!'));
                } else {
                    lemma_angle_end_closes(t, m + 3, 0);
                    assert(is_punct(t[e - 1], '>'));
                }
            }
            if e + 1 < t.len() && is_ident(t[e + 1], "else"@) {
                if keep_then {
                    lemma_else_end_bounds(t, e + 2);
                    lemma_else_end_after(t, e + 2);
                    let f = else_end(t, e + 2);
                    lemma_landing(t, i, f);
                    let pre1 = pre.push(t[e]);
                    lemma_landing_context(pre1, t, f);
                    lemma_scan_settles(a, t, f, pre1);
                    let o1 = scan(a, t, f);
                    assert(o == seq![t[e]] + o1);
                    assert(pre + o =~= pre1 + o1);
                    assert forall|p: int| 0 <= p < o.len() implies !is_marker(#[trigger] o[p]) && (
                    settled(a, o[p]) || is_macro_body(pre + o, pre.len() + p)) by {
                        if p > 0 {
                            assert(o[p] == o1[p - 1]);
                        }
                    }
                } else {
                    lemma_landing(t, i, e + 2);
                    lemma_landing_context(pre, t, e + 2);
                    lemma_scan_settles(a, t, e + 2, pre);
                    assert(o == scan(a, t, e + 2));
                }
            } else {
                lemma_landing(t, i, e + 1);
                let h = if keep_then {
                    t[e]
                } else {
                    empty_block()
                };
                let pre1 = pre.push(h);
                lemma_landing_context(pre1, t, e + 1);
                lemma_scan_settles(a, t, e + 1, pre1);
                let o1 = scan(a, t, e + 1);
                assert(o == seq![h] + o1);
                assert(pre + o =~= pre1 + o1);
                assert forall|p: int| 0 <= p < o.len() implies !is_marker(#[trigger] o[p]) && (
                settled(a, o[p]) || is_macro_body(pre + o, pre.len() + p)) by {
                    if p > 0 {
                        assert(o[p] == o1[p - 1]);
                    }
                }
            }
        } else {
            assert forall|k: int| i + 1 <= k < t.len() && is_marker(#[trigger] t[k]) implies marker_placed(
                t,
                i + 1,
                k,
            ) by {
                assert(marker_placed(t, i, k));
            }
            let pre1 = pre.push(t[i]);
            assert(context_ok(pre1, t, i + 1)) by {
                assert forall|q: int| i + 1 <= q < i + 4 && q < t.len() && #[trigger] is_macro_body(
                    t,
                    q,
                ) implies {
                    &&& (q - 1 < i + 1 ==> i + 1 - q + 1 <= pre1.len() && pre1[pre1.len() - (i + 1
                        - q + 1)] == t[q - 1])
                    &&& (q - 2 < i + 1 ==> i + 1 - q + 2 <= pre1.len() && pre1[pre1.len() - (i + 1
                        - q + 2)] == t[q - 2])
                    &&& (macro_ctx(t, q) == 3 && q - 3 < i + 1 ==> i + 1 - q + 3 <= pre1.len()
                        && pre1[pre1.len() - (i + 1 - q + 3)] == t[q - 3])
                } by {
                    if q < i + 3 {
                        assert(is_macro_body(t, q));
                    }
                }
            }
            lemma_scan_settles(a, t, i + 1, pre1);
            let o1 = scan(a, t, i + 1);
            assert(o == seq![t[i]] + o1);
            assert(pre + o =~= pre1 + o1);
            assert forall|p: int| 0 <= p < o.len() implies !is_marker(#[trigger] o[p]) && (settled(
                a,
                o[p],
            ) || is_macro_body(pre + o, pre.len() + p)) by {
                if p > 0 {
                    assert(o[p] == o1[p - 1]);
                } else {
                    if !settled(a, t[i]) {
                        assert(is_macro_body(t, i));
                        let x = pre + o;
                        let n = pre.len() as int;
                        assert(x[n] == t[i]);
                        assert(x[n - 1] == t[i - 1]);
                        assert(x[n - 2] == t[i - 2]);
                        if macro_ctx(t, i) == 3 {
                            assert(x[n - 3] == t[i - 3]);
                        }
                        assert(is_macro_body(x, n));
                    }
                }
            }
        }
    }
}

/// Two sequences of one length that differ only inside groups of the same
/// delimiter.
pub open spec fn same_shape(s: Seq<Tok>, t: Seq<Tok>) -> bool {
    &&& s.len() == t.len()
    &&& forall|k: int|
        0 <= k < s.len() ==> ((!(#[trigger] s[k] is Group) || !(t[k] is Group)) ==> s[k] == t[k])
    &&& forall|k: int|
        0 <= k < s.len() ==> is_group(#[trigger] s[k], Delimiter::Brace) == is_group(
            t[k],
            Delimiter::Brace,
        )
}

/// Desugaring the groups keeps the shape.
proof fn lemma_desugar_groups_shape(a: bool, s: Seq<Tok>)
    ensures
        same_shape(desugar_groups(a, s), s),
{
}

/// Sequences of the same shape have their marker `if`s at the same places.
proof fn lemma_same_shape_markers(s: Seq<Tok>, t: Seq<Tok>, j: int)
    requires
        same_shape(s, t),
        0 <= j,
    ensures
        marker_pos(s, j) == marker_pos(t, j),
        marker_at(s, j) == marker_at(t, j),
{
    assert forall|k: int| 0 <= k < s.len() && (#[trigger] s[k] is Punct || t[k] is Punct) implies s[k]
        == t[k] by {
        assert(!(s[k] is Group) || !(t[k] is Group));
    }
    let m = marker_pos(t, j);
    if j + 2 < s.len() {
        assert(s[j + 1] is Punct ==> s[j + 1] == t[j + 1]);
        assert(t[j + 1] is Punct ==> s[j + 1] == t[j + 1]);
        assert(s[j + 2] is Punct ==> s[j + 2] == t[j + 2]);
        assert(t[j + 2] is Punct ==> s[j + 2] == t[j + 2]);
    }
    assert(path_sep_at(s, j + 1) == path_sep_at(t, j + 1));
    assert(marker_pos(s, j) == m);
    if m + 3 < s.len() {
        assert(s[m + 1] is Punct ==> s[m + 1] == t[m + 1]);
        assert(t[m + 1] is Punct ==> s[m + 1] == t[m + 1]);
        assert(s[m + 2] is Punct ==> s[m + 2] == t[m + 2]);
        assert(t[m + 2] is Punct ==> s[m + 2] == t[m + 2]);
        assert(s[m + 3] is Punct ==> s[m + 3] == t[m + 3]);
        assert(t[m + 3] is Punct ==> s[m + 3] == t[m + 3]);
    }
    if m + 2 < s.len() {
        assert(s[m + 1] is Punct ==> s[m + 1] == t[m + 1]);
        assert(t[m + 1] is Punct ==> s[m + 1] == t[m + 1]);
        assert(s[m + 2] is Punct ==> s[m + 2] == t[m + 2]);
        assert(t[m + 2] is Punct ==> s[m + 2] == t[m + 2]);
    }
    assert(path_sep_at(s, m + 1) == path_sep_at(t, m + 1));
    lemma_angle_end_puncts(s, t, m + 3, 0);
    assert(cond_end(s, j) == cond_end(t, j));
    let e = cond_end(t, j);
    if j < s.len() {
        assert(!(s[j] is Group) || !(t[j] is Group) ==> s[j] == t[j]);
    }
    if 0 <= m < s.len() {
        assert(!(s[m] is Group) || !(t[m] is Group) ==> s[m] == t[m]);
    }
    if 0 <= e < s.len() {
        assert(is_group(s[e], Delimiter::Brace) == is_group(t[e], Delimiter::Brace));
    }
    if marker_at(t, j) {
        lemma_cond_end_bounds(t, j);
        assert(is_group(s[e], Delimiter::Brace) == is_group(t[e], Delimiter::Brace));
        assert(!(s[m] is Group) || !(t[m] is Group) ==> s[m] == t[m]);
        assert(!(s[j] is Group) || !(t[j] is Group) ==> s[j] == t[j]);
        assert(marker_at(s, j));
    } else if marker_at(s, j) {
        lemma_cond_end_bounds(s, j);
        assert(is_group(s[e], Delimiter::Brace) == is_group(t[e], Delimiter::Brace));
        assert(!(s[m] is Group) || !(t[m] is Group) ==> s[m] == t[m]);
        assert(!(s[j] is Group) || !(t[j] is Group) ==> s[j] == t[j]);
        assert(false);
    }
}

/// Desugaring twice gives what desugaring once gives. (Stated for tokens in
/// which, outside macro bodies, `_async` and `_sync` stand only as the
/// condition of an `if` followed by a block.)
pub proof fn law_desugar_is_idempotent(a: bool, s: Seq<Tok>)
    requires
        markers_in_place(s),
    ensures
        desugar(a, desugar(a, s)) == desugar(a, s),
    decreases s,
{
    let d = desugar_groups(a, s);
    lemma_desugar_groups_shape(a, s);
    assert forall|k: int| 0 <= k < d.len() implies settled(a, #[trigger] d[k]) || is_macro_body(
        d,
        k,
    ) by {
        lemma_same_shape_macro_body(d, s, k);
        if let Tok::Group { delimiter, stream, span } = s[k] {
            if !is_macro_body(s, k) {
                law_desugar_is_idempotent(a, stream);
            }
        }
    }
    assert forall|k: int| 0 <= k < d.len() && is_marker(#[trigger] d[k]) implies marker_placed(
        d,
        0,
        k,
    ) by {
        assert(!(s[k] is Group));
        lemma_desugar_groups_keeps(a, s, k);
        assert(is_marker(s[k]));
        assert(marker_placed(s, 0, k));
        if k >= 1 {
            lemma_same_shape_markers(d, s, k - 1);
        }
        if k >= 3 {
            lemma_same_shape_markers(d, s, k - 3);
        }
    }
    lemma_scan_settles(a, d, 0, Seq::empty());
    let o = scan(a, d, 0);
    assert(Seq::<Tok>::empty() + o =~= o);
    let d2 = desugar_groups(a, o);
    assert forall|p: int| 0 <= p < o.len() implies #[trigger] d2[p] == o[p] by {
        assert(settled(a, o[p]) || is_macro_body(Seq::<Tok>::empty() + o, p));
    }
    assert(d2 =~= o);
    lemma_scan_copies(a, o, 0);
    assert(o.subrange(0, o.len() as int) =~= o);
}

/// Sequences of the same shape have their macro bodies at the same places.
proof fn lemma_same_shape_macro_body(s: Seq<Tok>, t: Seq<Tok>, k: int)
    requires
        same_shape(s, t),
        0 <= k < s.len(),
    ensures
        is_macro_body(s, k) == is_macro_body(t, k),
{
    if k >= 1 {
        assert(!(s[k - 1] is Group) || !(t[k - 1] is Group) ==> s[k - 1] == t[k - 1]);
    }
    if k >= 2 {
        assert(!(s[k - 2] is Group) || !(t[k - 2] is Group) ==> s[k - 2] == t[k - 2]);
    }
    if k >= 3 {
        assert(!(s[k - 3] is Group) || !(t[k - 3] is Group) ==> s[k - 3] == t[k - 3]);
    }
}

/// The condition `[::]marker[::<..>]` of an `if`: the marker, after `c1 c2`
/// when `lead`, and before `c1 c2` and the generic arguments `gen` when
/// there are any.
pub open spec fn marker_cond_tokens(lead: bool, c1: Tok, c2: Tok, marker: Tok, gen: Seq<Tok>) -> Seq<
    Tok,
> {
    (if lead {
        seq![c1, c2]
    } else {
        Seq::empty()
    }) + seq![marker] + (if gen.len() > 0 {
        seq![c1, c2] + gen
    } else {
        Seq::empty()
    })
}

/// `if _async { A } else { B }` keeps `A` in the async flavour and `B` in
/// the synchronous one (and `if _sync` the reverse) also where the marker
/// is written as a path, with a leading `::` or generic arguments `::<..>`.
pub proof fn law_marker_path_selects_branch(
    a: bool,
    kw_if: Tok,
    lead: bool,
    c1: Tok,
    c2: Tok,
    marker: Tok,
    gen: Seq<Tok>,
    then_block: Tok,
    kw_else: Tok,
    else_block: Tok,
)
    requires
        is_ident(kw_if, "if"@),
        is_joint_punct(c1, ':'),
        is_punct(c2, ':'),
        is_marker(marker),
        gen.len() == 0 || simple_angle(gen),
        is_group(then_block, Delimiter::Brace),
        is_ident(kw_else, "else"@),
        is_group(else_block, Delimiter::Brace),
    ensures
        desugar(
            a,
            seq![kw_if] + marker_cond_tokens(lead, c1, c2, marker, gen) + seq![
                then_block,
                kw_else,
                else_block,
            ],
        ) == seq![
            desugar_tree(a, if is_ident(marker, "_async"@) == a { then_block } else { else_block }),
        ],
{
    reveal_strlit("if");
    reveal_strlit("else");
    reveal_strlit("_async");
    reveal_strlit("_sync");
    reveal_strlit("macro_rules");
    let cond = marker_cond_tokens(lead, c1, c2, marker, gen);
    let s = seq![kw_if] + cond + seq![then_block, kw_else, else_block];
    let e = 1 + cond.len() as int;
    let mp: int = if lead {
        3
    } else {
        1
    };
    assert(s[0] == kw_if);
    assert(s[mp] == marker);
    assert(s[e] == then_block);
    assert(s[e + 1] == kw_else);
    assert(s[e + 2] == else_block);
    assert(s.len() == e + 3);
    if lead {
        assert(s[1] == c1 && s[2] == c2);
        assert(path_sep_at(s, 1));
    } else {
        assert(!path_sep_at(s, 1));
    }
    assert(marker_pos(s, 0) == mp);
    if gen.len() > 0 {
        assert(s[mp + 1] == c1 && s[mp + 2] == c2);
        assert(path_sep_at(s, mp + 1));
        assert(s[mp + 3] == gen[0]);
        assert(s.subrange(mp + 3, mp + 3 + gen.len()) =~= gen);
        lemma_simple_angle_end(s, mp + 3, gen);
        assert(cond_end(s, 0) == e);
    } else {
        assert(!path_sep_at(s, mp + 1));
        assert(cond_end(s, 0) == e);
    }
    assert(marker_at(s, 0));
    let d = desugar_groups(a, s);
    lemma_desugar_groups_shape(a, s);
    lemma_same_shape_markers(d, s, 0);
    assert(marker_at(d, 0));
    assert(marker_pos(d, 0) == mp);
    lemma_same_shape_markers(d, s, 0);
    assert(!is_macro_body(s, e)) by {
        if gen.len() > 0 {
            assert(s[e - 1] == gen[gen.len() - 1]);
        } else {
            assert(s[e - 1] == marker);
            if lead {
                assert(s[e - 2] == c2);
            } else {
                assert(s[e - 2] == kw_if);
            }
        }
    }
    assert(!is_macro_body(s, e + 2));
    assert(d[mp] == marker);
    assert(d[e] == desugar_tree(a, then_block));
    assert(d[e + 1] == kw_else);
    assert(d[e + 2] == desugar_tree(a, else_block));
    assert(cond_end(d, 0) == e) by {
        lemma_same_shape_cond_end(d, s, 0);
    }
    assert(!marker_at(d, e + 2));
    assert(scan(a, d, e + 3) == Seq::<Tok>::empty());
    if is_ident(marker, "_async"@) == a {
        assert(else_end(d, e + 2) == e + 3);
        assert(desugar(a, s) =~= seq![d[e]]);
    } else {
        assert(scan(a, d, e + 2) =~= seq![d[e + 2]]);
        assert(desugar(a, s) =~= seq![d[e + 2]]);
    }
}

/// Sequences of the same shape have the same condition ends.
proof fn lemma_same_shape_cond_end(s: Seq<Tok>, t: Seq<Tok>, j: int)
    requires
        same_shape(s, t),
        0 <= j,
    ensures
        cond_end(s, j) == cond_end(t, j),
{
    assert forall|k: int| 0 <= k < s.len() && (#[trigger] s[k] is Punct || t[k] is Punct) implies s[k]
        == t[k] by {
        assert(!(s[k] is Group) || !(t[k] is Group));
    }
    lemma_same_shape_markers(s, t, j);
    let m = marker_pos(t, j);
    if m + 3 < s.len() {
        assert(s[m + 1] is Punct ==> s[m + 1] == t[m + 1]);
        assert(t[m + 1] is Punct ==> s[m + 1] == t[m + 1]);
        assert(s[m + 2] is Punct ==> s[m + 2] == t[m + 2]);
        assert(t[m + 2] is Punct ==> s[m + 2] == t[m + 2]);
        assert(s[m + 3] is Punct ==> s[m + 3] == t[m + 3]);
        assert(t[m + 3] is Punct ==> s[m + 3] == t[m + 3]);
    }
    if m + 2 < s.len() {
        assert(s[m + 1] is Punct ==> s[m + 1] == t[m + 1]);
        assert(t[m + 1] is Punct ==> s[m + 1] == t[m + 1]);
        assert(s[m + 2] is Punct ==> s[m + 2] == t[m + 2]);
        assert(t[m + 2] is Punct ==> s[m + 2] == t[m + 2]);
    }
    lemma_angle_end_puncts(s, t, m + 3, 0);
}

/// Whether the group at position `i` of `v` is the body of a macro invocation.
pub fn macro_body_at(v: &Vec<TokenTree>, i: usize) -> (b: bool)
    requires
        i < v.len(),
    ensures
        b == is_macro_body(toks(v@), i as int),
{
    let ghost t = toks(v@);
    if i >= 2 && punct_is(&v[i - 1], '!') {
        if let TokenTree::Ident { name, .. } = &v[i - 2] {
            if !is_keyword_name(name) {
                return true;
            }
        }
    }
    if i >= 3 && punct_is(&v[i - 2], '!') && ident_is(&v[i - 3], "macro_rules") {
        if let TokenTree::Ident { .. } = &v[i - 1] {
            return true;
        }
    }
    proof {
        assert(!is_macro_name(t[i - 2]) || !is_punct(t[i - 1], '!') || i < 2);
    }
    false
}

/// Whether `::` stands at position `j` of `v`.
fn path_sep_at_exec(v: &Vec<TokenTree>, j: usize) -> (b: bool)
    ensures
        b == path_sep_at(toks(v@), j as int),
{
    j < v.len() && v.len() - j >= 2 && joint_punct_is(&v[j], ':') && punct_is(&v[j + 1], ':')
}

/// Where the marker stands in the condition of the `if` at position `i`.
fn find_marker_pos(v: &Vec<TokenTree>, i: usize) -> (m: usize)
    requires
        i < v.len(),
    ensures
        m == marker_pos(toks(v@), i as int),
{
    if path_sep_at_exec(v, i + 1) {
        i + 3
    } else {
        i + 1
    }
}

/// Where the condition of the `if` at position `i` ends.
fn find_cond_end(v: &Vec<TokenTree>, i: usize) -> (e: usize)
    requires
        i < v.len(),
        marker_pos(toks(v@), i as int) < v.len(),
    ensures
        e == cond_end(toks(v@), i as int),
{
    let m = find_marker_pos(v, i);
    if path_sep_at_exec(v, m + 1) && v.len() - m > 3 && punct_is(&v[m + 3], '<') {
        find_angle_end(v, m + 3)
    } else {
        m + 1
    }
}

/// Whether an `if` whose condition is the marker `_async` or `_sync`,
/// followed by a block, stands at position `i` of `v`.
pub fn marker_if_at(v: &Vec<TokenTree>, i: usize) -> (b: bool)
    requires
        i <= v.len(),
    ensures
        b == marker_at(toks(v@), i as int),
{
    if i >= v.len() || !ident_is(&v[i], "if") {
        return false;
    }
    let m = find_marker_pos(v, i);
    if m >= v.len() || !(ident_is(&v[m], "_async") || ident_is(&v[m], "_sync")) {
        return false;
    }
    let e = find_cond_end(v, i);
    e < v.len() && group_is(&v[e], Delimiter::Brace)
}

/// Whether, from position `j` of `v` on, a `{ .. }` group comes before any
/// `;`.
pub fn brace_before_semicolon_at(v: &Vec<TokenTree>, j: usize) -> (b: bool)
    ensures
        b == brace_before_semicolon(toks(v@), j as int),
{
    let mut k = j;
    while k < v.len()
        invariant
            j <= k,
            brace_before_semicolon(toks(v@), k as int) == brace_before_semicolon(
                toks(v@),
                j as int,
            ),
        decreases v.len() - k,
    {
        if group_is(&v[k], Delimiter::Brace) {
            return true;
        }
        if punct_is(&v[k], ';') {
            return false;
        }
        k = k + 1;
    }
    false
}

/// Whether the token at position `j` of `v` carries a condition on past the
/// `{ .. }` group before it.
pub fn continues_condition_at(v: &Vec<TokenTree>, j: usize) -> (b: bool)
    ensures
        b == continues_condition(toks(v@), j as int),
{
    if j >= v.len() {
        return false;
    }
    match &v[j] {
        TokenTree::Group { delimiter: Delimiter::Brace, .. } => true,
        TokenTree::Ident { .. } => ident_is(&v[j], "as"),
        TokenTree::Punct { ch, joint, .. } => {
            if *joint || *ch == '=' || *ch == '|' || *ch == '.' || *ch == '?' || *ch == '<' || *ch
                == '>' || *ch == '+' || *ch == '/' || *ch == '%' || *ch == '^' || *ch == '@' {
                true
            } else if *ch == '*' || *ch == '-' || *ch == '&' || *ch == '!' {
                brace_before_semicolon_at(v, j + 1)
            } else {
                false
            }
        },
        _ => false,
    }
}

/// The position of the block of the `if` whose condition starts at `k`.
pub fn find_then_block(v: &Vec<TokenTree>, k: usize) -> (j: usize)
    requires
        k <= v.len(),
    ensures
        j == then_block(toks(v@), k as int),
{
    let mut j = k;
    while j < v.len()
        invariant
            k <= j <= v.len(),
            then_block(toks(v@), j as int) == then_block(toks(v@), k as int),
        decreases v.len() - j,
    {
        if group_is(&v[j], Delimiter::Brace) && !continues_condition_at(v, j + 1) {
            return j;
        }
        j = j + 1;
    }
    j
}

/// Where the `else` branch that starts at position `start` of `v` ends.
pub fn find_else_end(v: &Vec<TokenTree>, start: usize) -> (e: usize)
    requires
        start <= v.len(),
    ensures
        e as int == else_end(toks(v@), start as int),
        start <= e <= v.len(),
{
    let ghost t = toks(v@);
    proof {
        lemma_else_end_bounds(t, start as int);
    }
    let mut k = start;
    loop
        invariant
            start <= k <= v.len(),
            t == toks(v@),
            else_end(t, k as int) == else_end(t, start as int),
        decreases v.len() - k,
    {
        if k >= v.len() {
            return k;
        }
        if group_is(&v[k], Delimiter::Brace) {
            return k + 1;
        }
        if !ident_is(&v[k], "if") {
            return k;
        }
        let j = find_then_block(v, k + 1);
        proof {
            lemma_then_block_bounds(t, k + 1);
        }
        if j >= v.len() {
            return v.len();
        }
        if j + 1 < v.len() && ident_is(&v[j + 1], "else") {
            k = j + 2;
        } else {
            return j + 1;
        }
    }
}

impl DesugarIfAsync {
    /// The tokens of `item` as the flavour `self.is_async` sees them.
    pub fn desugar_if_async(&mut self, item: Vec<TokenTree>) -> (r: Vec<TokenTree>)
        ensures
            toks(r@) == desugar(old(self).is_async, toks(item@)),
            *final(self) == *old(self),
    {
        self.visit_stream(&item)
    }

    /// Desugars the groups of `v`, then its own `if` markers.
    fn visit_stream(&self, v: &Vec<TokenTree>) -> (r: Vec<TokenTree>)
        ensures
            toks(r@) == desugar(self.is_async, toks(v@)),
        decreases v, 1nat,
    {
        let w = self.visit_groups(v);
        self.rewrite_stream(&w)
    }

    /// Desugars the inside of every group of `v` that is no macro body.
    fn visit_groups(&self, v: &Vec<TokenTree>) -> (w: Vec<TokenTree>)
        ensures
            toks(w@) == desugar_groups(self.is_async, toks(v@)),
        decreases v, 0nat,
    {
        let ghost t = toks(v@);
        let ghost d = desugar_groups(self.is_async, t);
        let mut w: Vec<TokenTree> = Vec::new();
        let mut i: usize = 0;
        while i < v.len()
            invariant
                i <= v.len(),
                t == toks(v@),
                d == desugar_groups(self.is_async, t),
                toks(w@) == d.subrange(0, i as int),
            decreases v.len() - i,
        {
            let ghost prev = w@;
            let item = &v[i];
            let next = if macro_body_at(v, i) {
                copy_tree(item)
            } else {
                match item {
                    TokenTree::Group { delimiter, stream, span } => {
                        proof {
                            assert(decreases_to!(v => v@[i as int]));
                        }
                        let inner = self.visit_stream(stream);
                        TokenTree::Group { delimiter: *delimiter, stream: inner, span: *span }
                    },
                    _ => copy_tree(item),
                }
            };
            w.push(next);
            proof {
                lemma_toks_push(prev, next);
                assert(d.subrange(0, i + 1) =~= d.subrange(0, i as int).push(d[i as int]));
            }
            i = i + 1;
        }
        proof {
            assert(d.subrange(0, v.len() as int) =~= d);
        }
        w
    }

    /// Replaces every `if` marker of `w`, from left to right.
    fn rewrite_stream(&self, w: &Vec<TokenTree>) -> (out: Vec<TokenTree>)
        ensures
            toks(out@) == scan(self.is_async, toks(w@), 0),
    {
        let ghost t = toks(w@);
        let mut out: Vec<TokenTree> = Vec::new();
        let mut i: usize = 0;
        while i < w.len()
            invariant
                i <= w.len(),
                t == toks(w@),
                toks(out@) + scan(self.is_async, t, i as int) == scan(self.is_async, t, 0),
            decreases w.len() - i,
        {
            if marker_if_at(w, i) {
                i = self.rewrite_if_async(w, i, &mut out);
            } else {
                let ghost prev = out@;
                let c = copy_tree(&w[i]);
                out.push(c);
                proof {
                    lemma_toks_push(prev, c);
                    assert(toks(out@) + scan(self.is_async, t, i + 1) =~= toks(prev) + scan(
                        self.is_async,
                        t,
                        i as int,
                    ));
                }
                i = i + 1;
            }
        }
        proof {
            assert(toks(out@) + scan(self.is_async, t, i as int) =~= toks(out@));
        }
        out
    }

    /// Replaces the `if _async` / `if _sync` expression at position `i` of
    /// `w` by the branch of this flavour; returns where the expression ends.
    fn rewrite_if_async(&self, w: &Vec<TokenTree>, i: usize, out: &mut Vec<TokenTree>) -> (next: usize)
        requires
            marker_at(toks(w@), i as int),
        ensures
            i < next <= w.len(),
            toks(final(out)@) + scan(self.is_async, toks(w@), next as int) == toks(old(out)@) + scan(
                self.is_async,
                toks(w@),
                i as int,
            ),
    {
        let ghost t = toks(w@);
        let ghost prev = out@;
        assert(t.len() == w@.len());
        proof {
            lemma_cond_end_bounds(t, i as int);
        }
        let m = find_marker_pos(w, i);
        let e = find_cond_end(w, i);
        let marks_async = ident_is(&w[m], "_async");
        let keep_then = marks_async == self.is_async;
        if w.len() - e > 1 && ident_is(&w[e + 1], "else") {
            if keep_then {
                let c = copy_tree(&w[e]);
                out.push(c);
                let f = find_else_end(w, e + 2);
                proof {
                    lemma_toks_push(prev, c);
                    assert(toks(out@) + scan(self.is_async, t, f as int) =~= toks(prev) + scan(
                        self.is_async,
                        t,
                        i as int,
                    ));
                }
                f
            } else {
                e + 2
            }
        } else {
            let c = if keep_then {
                copy_tree(&w[e])
            } else {
                let b = TokenTree::Group { delimiter: Delimiter::Brace, stream: Vec::new(), span: CALL_SITE };
                proof {
                    assert(toks(Seq::<TokenTree>::empty()) =~= Seq::<Tok>::empty());
                }
                b
            };
            out.push(c);
            proof {
                lemma_toks_push(prev, c);
                assert(toks(out@) + scan(self.is_async, t, e + 1) =~= toks(prev) + scan(
                    self.is_async,
                    t,
                    i as int,
                ));
            }
            e + 1
        }
    }
}

} // verus!
