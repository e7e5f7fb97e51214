//! The expansion of `#[async_generic]`: a synchronous and an async flavour
//! of one function.
//!
//! The synchronous flavour is the function as written. The async flavour is
//! declared `async`, named with the suffix `_async`, and takes the generics,
//! parameters and return type of the `async_signature` argument where it
//! gives them. `sync_cfg(p)` and `async_cfg(p)` put `#[cfg(p)]` on the
//! synchronous or the async flavour. In each flavour the calls marked with
//! `#[call_generic]` are rewritten, then only its own branch of every
//! `if _async` / `if _sync` expression is kept; the inner attributes of the
//! body are dropped.
use vstd::prelude::*;
use crate::args::{args_result_given, args_view, has_output_at, Args, ArgsModel, ChecksModel};
use crate::arguments::{
    attribute_args_result, group_list, no_arguments, opt_toks,
    AsyncGenericAttributeArgs, NamedGroupModel,
};
use crate::call_generic::{
    call_generic_result, has_call_generic_from, law_unmarked_calls_unchanged,
    parse_quote_call_generic,
};
use crate::desugar_if_async::{
    law_unmarked_tokens_unchanged, lemma_mentions_at, lemma_no_mentions, mentions_marker_from,
    tok_mentions_marker, desugar, desugar_groups, lemma_desugar_groups_keeps, lemma_scan_prefix,
    DesugarIfAsync,
};
use crate::error::{error_view, macro_error, MacroError};
use crate::grammar::{
    find_inner_attrs_end, inner_attrs_end, angle_end, attrs_end, find_angle_end, find_attrs_end, find_word, find_word_from,
    lemma_find_word_bounds, simple_angle, outer_attrs, starts_with_attr,
    law_outer_attributes_are_skipped, inner_attrs, starts_with_inner_attr, law_inner_attributes_are_skipped,
};
use crate::render::{render, render_tokens};
use crate::syntax::{message_view, reject_item_fn};
use crate::token::{
    group_stream, is_joint_punct, tok, append_range, copy_stream_range, copy_tree, group_is, ident_is, is_group, is_ident, is_punct,
    joint_punct_is, is_reserved_ident, new_ident, punct_is, push_tree, span_id, span_of, toks, Delimiter, Tok,
    TokenTree, CALL_SITE,
};

verus! {

/// Where the parts of a function item stand in its tokens: after the outer
/// attributes, the `fn` keyword, the end of the generic parameters (just
/// after the name when there are none), the end of the return type (just
/// after the parameters when there is none; a `where` clause follows up to
/// the body), and the body.
#[derive(Clone, Copy, Debug, PartialEq, Eq, Structural)]
pub struct FnLayout {
    pub attrs_end: usize,
    pub fn_pos: usize,
    pub generics_end: usize,
    pub output_end: usize,
    pub body_pos: usize,
}

/// Where the return type that starts after the parameters at `g` ends:
/// before the `where` keyword, or before the body at `b`.
pub open spec fn output_end(s: Seq<Tok>, g: int, b: int) -> int {
    if has_output_at(s, g + 1) && g + 2 < b {
        let w = find_word(s, g + 3, "where"@);
        if w >= b {
            b
        } else {
            w
        }
    } else {
        g + 1
    }
}

/// The layout of the function item `s`: outer attributes, then qualifiers
/// up to the first `fn`, a name, optional generic parameters, the
/// parameters in parentheses, an optional return type, an optional `where`
/// clause, and the body as the last token.
pub open spec fn fn_layout(s: Seq<Tok>) -> Option<FnLayout> {
    let a = attrs_end(s, 0);
    let f = find_word(s, a, "fn"@);
    if f + 1 >= s.len() || !(s[f + 1] is Ident) {
        None
    } else {
        let g = if f + 2 < s.len() && is_punct(s[f + 2], '<') {
            angle_end(s, f + 2, 0)
        } else {
            f + 2
        };
        let b = s.len() - 1;
        if g >= b || !is_group(s[g], Delimiter::Parenthesis) || !is_group(s[b], Delimiter::Brace) {
            None
        } else {
            let o = output_end(s, g, b);
            if o < b && !is_ident(s[o], "where"@) {
                None
            } else {
                Some(
                    FnLayout {
                        attrs_end: a as usize,
                        fn_pos: f as usize,
                        generics_end: g as usize,
                        output_end: o as usize,
                        body_pos: b as usize,
                    },
                )
            }
        }
    }
}

/// What the macro input `s` parses to, where `rejection` is what `syn`
/// says of its text as a function item (`None` when it parses): the layout
/// of a function item that is not declared `async`, or an error.
pub open spec fn item_result(s: Seq<Tok>, rejection: Option<Seq<char>>) -> Result<
    FnLayout,
    (Seq<char>, u64),
> {
    if rejection is Some || fn_layout(s) is None {
        Err(("async_generic can only be used with functions"@, CALL_SITE))
    } else if find_word(s, fn_layout(s)->0.attrs_end as int, "async"@) < fn_layout(s)->0.fn_pos {
        Err(("an async_generic function should not be declared as async"@, CALL_SITE))
    } else {
        Ok(fn_layout(s)->0)
    }
}


/// Where `async` goes among the qualifiers from `k` to the `fn` at `f`:
/// after `const`, else before `unsafe`, `safe` or `extern`, else before `fn`.
pub open spec fn async_insert_pos(s: Seq<Tok>, k: int, f: int) -> int
    decreases f - k,
{
    if k >= f {
        f
    } else if is_ident(s[k], "const"@) {
        k + 1
    } else if is_ident(s[k], "unsafe"@) || is_ident(s[k], "safe"@) || is_ident(s[k], "extern"@) {
        k
    } else {
        async_insert_pos(s, k + 1, f)
    }
}

/// The name of an identifier token.
pub open spec fn ident_name(t: Tok) -> Seq<char> {
    match t {
        Tok::Ident { name, .. } => name,
        _ => Seq::empty(),
    }
}

/// The generic parameters of the async flavour.
pub open spec fn async_params(s: Seq<Tok>, l: FnLayout, sig: Option<ArgsModel>) -> Seq<Tok> {
    match sig {
        Some(a) => match a.generics {
            Some((p, _)) => p,
            None => s.subrange(l.fn_pos + 2, l.generics_end as int),
        },
        None => s.subrange(l.fn_pos + 2, l.generics_end as int),
    }
}

/// The `where` clause of the async flavour.
pub open spec fn async_where(s: Seq<Tok>, l: FnLayout, sig: Option<ArgsModel>) -> Seq<Tok> {
    match sig {
        Some(a) => match a.generics {
            Some((_, w)) => w,
            None => s.subrange(l.output_end as int, l.body_pos as int),
        },
        None => s.subrange(l.output_end as int, l.body_pos as int),
    }
}

/// The parameter group of the async flavour.
pub open spec fn async_inputs(s: Seq<Tok>, l: FnLayout, sig: Option<ArgsModel>) -> Tok {
    match sig {
        Some(a) => Tok::Group {
            delimiter: Delimiter::Parenthesis,
            stream: a.inputs,
            span: span_of(s[l.generics_end as int]),
        },
        None => s[l.generics_end as int],
    }
}

/// The return type of the async flavour.
pub open spec fn async_output(s: Seq<Tok>, l: FnLayout, sig: Option<ArgsModel>) -> Seq<Tok> {
    match sig {
        Some(a) => match a.output {
            Some(out) => out,
            None => s.subrange(l.generics_end + 1, l.output_end as int),
        },
        None => s.subrange(l.generics_end + 1, l.output_end as int),
    }
}

/// The body `t` without the inner attributes `#![..]` at its start.
pub open spec fn without_inner_attrs(t: Tok) -> Tok {
    match t {
        Tok::Group { delimiter, stream, span } => Tok::Group {
            delimiter,
            stream: stream.subrange(inner_attrs_end(stream, 0), stream.len() as int),
            span,
        },
        _ => t,
    }
}

/// The body of the function item `s` with layout `l` starts with an inner
/// attribute.
pub open spec fn has_inner_attrs(s: Seq<Tok>, l: FnLayout) -> bool {
    inner_attrs_end(group_stream(s[l.body_pos as int]), 0) > 0
}

/// The synchronous flavour of the function item `s` with layout `l`, before
/// its calls and markers are rewritten: the function as written, but for
/// the inner attributes of its body, which are dropped.
pub open spec fn sync_item(s: Seq<Tok>, l: FnLayout) -> Seq<Tok> {
    s.update(l.body_pos as int, without_inner_attrs(s[l.body_pos as int]))
}

/// The async flavour of the function item `s` with layout `l`, before its
/// `if` markers are replaced: `async` added, `_async` appended to the name,
/// and the parts that `sig` gives replaced.
pub open spec fn async_item(s: Seq<Tok>, l: FnLayout, sig: Option<ArgsModel>) -> Seq<Tok> {
    let f = l.fn_pos as int;
    let ip = async_insert_pos(s, l.attrs_end as int, f);
    let name = Tok::Ident { name: ident_name(s[f + 1]) + "_async"@, span: CALL_SITE };
    let kw = Tok::Ident { name: "async"@, span: CALL_SITE };
    s.subrange(0, ip) + seq![kw] + s.subrange(ip, f + 1) + seq![name] + async_params(s, l, sig)
        + seq![async_inputs(s, l, sig)] + async_output(s, l, sig) + async_where(s, l, sig) + seq![
        without_inner_attrs(s[l.body_pos as int]),
    ]
}

/// The tokens of one flavour of the function item `s` with layout `l`,
/// before its calls and markers are rewritten.
pub open spec fn flavour(s: Seq<Tok>, l: FnLayout, is_async: bool, sig: Option<ArgsModel>) -> Seq<
    Tok,
> {
    if is_async {
        async_item(s, l, sig)
    } else {
        sync_item(s, l)
    }
}

/// One flavour of the function item `s` with layout `l`: its
/// `#[call_generic]` calls rewritten, then its `if _async` / `if _sync`
/// expressions replaced; or the error for a misplaced `#[call_generic]`.
pub open spec fn converted(s: Seq<Tok>, l: FnLayout, is_async: bool, sig: Option<ArgsModel>) -> Result<
    Seq<Tok>,
    (Seq<char>, u64),
> {
    match call_generic_result(flavour(s, l, is_async, sig)) {
        Err(e) => Err(e),
        Ok(t) => Ok(desugar(is_async, t)),
    }
}

/// What the expansion takes from the attribute's arguments: the replacement
/// signature of the async flavour, and the `cfg` predicate of each flavour.
pub struct ExpansionArgs {
    pub sig: Option<ArgsModel>,
    pub sync_cfg: Option<Seq<Tok>>,
    pub async_cfg: Option<Seq<Tok>>,
}

/// The tokens `async_signature(c)`.
pub open spec fn signature_tokens(c: Seq<Tok>) -> Seq<Tok> {
    seq![
        Tok::Ident { name: "async_signature"@, span: CALL_SITE },
        Tok::Group { delimiter: Delimiter::Parenthesis, stream: c, span: CALL_SITE },
    ]
}

/// The first of the arguments `args` names an argument of the list form:
/// `sync_cfg`, `async_cfg`, or `async_signature` where the whole list parses.
pub open spec fn named_arguments(args: Seq<Tok>) -> bool {
    &&& args.len() > 0
    &&& {
        ||| is_ident(args[0], "sync_cfg"@)
        ||| is_ident(args[0], "async_cfg"@)
        ||| (is_ident(args[0], "async_signature"@) && attribute_args_result(args) is Ok)
    }
}

/// What the attribute's arguments `args` give the expansion, where `c` is
/// what `syn` said of the parts of the signature. They are either named
/// arguments `async_signature(..)`, `sync_cfg(..)`, `async_cfg(..)` (the
/// first giving the parameters of the async flavour), or one whole
/// signature `async_signature<..>(..) -> .. where ..`; anything else is
/// refused as a signature is.
pub open spec fn expansion_args(args: Seq<Tok>, c: ChecksModel) -> Result<
    ExpansionArgs,
    (Seq<char>, u64),
> {
    let none = ExpansionArgs { sig: None, sync_cfg: None, async_cfg: None };
    if args.len() == 0 {
        Ok(none)
    } else if !named_arguments(args) {
        match args_result_given(args, c) {
            Err(e) => Err(e),
            Ok(a) => Ok(ExpansionArgs { sig: Some(a), ..none }),
        }
    } else {
        match attribute_args_result(args) {
            Err(e) => Err(e),
            Ok(m) => match m.async_signature {
                None => Ok(ExpansionArgs { sig: None, sync_cfg: m.sync_cfg, async_cfg: m.async_cfg }),
                Some(t) => match args_result_given(signature_tokens(t), c) {
                    Err(e) => Err(e),
                    Ok(a) => Ok(
                        ExpansionArgs { sig: Some(a), sync_cfg: m.sync_cfg, async_cfg: m.async_cfg },
                    ),
                },
            },
        }
    }
}

/// The attribute `#[cfg(p)]` that gates a flavour, or nothing.
pub open spec fn cfg_attr(c: Option<Seq<Tok>>) -> Seq<Tok> {
    match c {
        None => Seq::empty(),
        Some(p) => seq![
            Tok::Punct { ch: '#', joint: false, span: CALL_SITE },
            Tok::Group {
                delimiter: Delimiter::Bracket,
                stream: seq![
                    Tok::Ident { name: "cfg"@, span: CALL_SITE },
                    Tok::Group { delimiter: Delimiter::Parenthesis, stream: p, span: CALL_SITE },
                ],
                span: CALL_SITE,
            },
        ],
    }
}

/// The expansion of `#[async_generic(args)]` on the item `input`, where `c`
/// is what `syn` said of the parts of the signature and `rejection` what it
/// said of the item: both flavours, synchronous first, each behind its
/// `cfg` attribute if it has one; or the first error met.
pub open spec fn expansion(
    args: Seq<Tok>,
    input: Seq<Tok>,
    c: ChecksModel,
    rejection: Option<Seq<char>>,
) -> Result<Seq<Tok>, (Seq<char>, u64)> {
    match expansion_args(args, c) {
        Err(e) => Err(e),
        Ok(x) => match item_result(input, rejection) {
            Err(e) => Err(e),
            Ok(l) => match converted(input, l, false, None) {
                Err(e) => Err(e),
                Ok(sync_part) => match converted(input, l, true, x.sig) {
                    Err(e) => Err(e),
                    Ok(async_part) => Ok(
                        cfg_attr(x.sync_cfg) + sync_part + cfg_attr(x.async_cfg) + async_part,
                    ),
                },
            },
        },
    }
}

/// A function item with its layout.
pub struct Item {
    tokens: Vec<TokenTree>,
    layout: FnLayout,
}

impl Item {
    /// The tokens of the item.
    pub closed spec fn tokens_view(self) -> Seq<Tok> {
        toks(self.tokens@)
    }

    /// The layout of the item.
    pub closed spec fn layout_view(self) -> FnLayout {
        self.layout
    }

    /// The layout is the one found in the tokens.
    pub closed spec fn wf(self) -> bool {
        fn_layout(toks(self.tokens@)) == Some(self.layout)
    }

    /// Parses the macro input as a function item that is not `async`,
    /// asking `syn` whether it parses as one: the result is what
    /// `from_checked` gives for the answer that came back.
    pub fn parse(input: Vec<TokenTree>) -> (r: Result<Item, MacroError>)
        ensures
            exists|rejection: Option<Seq<char>>|
                #![trigger item_result(toks(input@), rejection)]
                match r {
                    Ok(it) => it.wf() && it.tokens_view() == toks(input@) && item_result(
                        toks(input@),
                        rejection,
                    ) == Ok::<FnLayout, (Seq<char>, u64)>(it.layout_view()),
                    Err(e) => item_result(toks(input@), rejection) == Err::<
                        FnLayout,
                        (Seq<char>, u64),
                    >(error_view(e)),
                },
    {
        let text = render_tokens(&input);
        let rejected = reject_item_fn(text.as_str());
        let ghost rej = message_view(rejected);
        let r = Self::from_checked(input, rejected);
        proof {
            assert(match r {
                Ok(it) => it.wf() && it.tokens_view() == toks(input@) && item_result(
                    toks(input@),
                    rej,
                ) == Ok::<FnLayout, (Seq<char>, u64)>(it.layout_view()),
                Err(e) => item_result(toks(input@), rej) == Err::<FnLayout, (Seq<char>, u64)>(
                    error_view(e),
                ),
            });
        }
        r
    }

    /// Takes the macro input as a function item that is not `async`, where
    /// `rejection` is what `syn` said of its text as a function item
    /// (`None` when it parsed).
    pub fn from_checked(input: Vec<TokenTree>, rejection: Option<String>) -> (r: Result<
        Item,
        MacroError,
    >)
        ensures
            match r {
                Ok(it) => it.wf() && it.tokens_view() == toks(input@) && item_result(
                    toks(input@),
                    message_view(rejection),
                ) == Ok::<FnLayout, (Seq<char>, u64)>(it.layout_view()),
                Err(e) => item_result(toks(input@), message_view(rejection)) == Err::<
                    FnLayout,
                    (Seq<char>, u64),
                >(error_view(e)),
            },
    {
        let layout = find_fn_layout(&input);
        match (rejection, layout) {
            (None, Some(l)) => {
                let first_async = find_word_from(&input, l.attrs_end, "async");
                if first_async < l.fn_pos {
                    Err(
                        macro_error(
                            "an async_generic function should not be declared as async",
                            CALL_SITE,
                        ),
                    )
                } else {
                    Ok(Item { tokens: input, layout: l })
                }
            },
            _ => Err(macro_error("async_generic can only be used with functions", CALL_SITE)),
        }
    }
}

/// The layout of the function item `v`, if it has one.
pub fn find_fn_layout(v: &Vec<TokenTree>) -> (r: Option<FnLayout>)
    ensures
        r == fn_layout(toks(v@)),
{
    let ghost s = toks(v@);
    assert(s.len() == v.len());
    let a = find_attrs_end(v);
    let f = find_word_from(v, a, "fn");
    if f >= v.len() || v.len() - f < 2 {
        return None;
    }
    match &v[f + 1] {
        TokenTree::Ident { .. } => {},
        _ => {
            return None;
        },
    }
    let g = if v.len() - f > 2 && punct_is(&v[f + 2], '<') {
        find_angle_end(v, f + 2)
    } else {
        f + 2
    };
    let b = v.len() - 1;
    if g >= b || !group_is(&v[g], Delimiter::Parenthesis) || !group_is(&v[b], Delimiter::Brace) {
        return None;
    }
    let o = if g + 2 < v.len() && joint_punct_is(&v[g + 1], '-') && punct_is(&v[g + 2], '>') && g
        + 2 < b {
        let w = find_word_from(v, g + 3, "where");
        if w >= b {
            b
        } else {
            w
        }
    } else {
        g + 1
    };
    if o < b && !ident_is(&v[o], "where") {
        return None;
    }
    Some(FnLayout { attrs_end: a, fn_pos: f, generics_end: g, output_end: o, body_pos: b })
}

/// Where `async` goes among the qualifiers from `k` to the `fn` at `f`.
fn find_async_insert_pos(v: &Vec<TokenTree>, k: usize, f: usize) -> (p: usize)
    requires
        k <= f < v.len(),
    ensures
        p == async_insert_pos(toks(v@), k as int, f as int),
        k <= p <= f,
{
    let ghost s = toks(v@);
    let mut i = k;
    while i < f
        invariant
            k <= i <= f < v.len(),
            s == toks(v@),
            async_insert_pos(s, i as int, f as int) == async_insert_pos(s, k as int, f as int),
        decreases f - i,
    {
        if ident_is(&v[i], "const") {
            return i + 1;
        }
        if ident_is(&v[i], "unsafe") || ident_is(&v[i], "safe") || ident_is(&v[i], "extern") {
            return i;
        }
        i = i + 1;
    }
    f
}

/// The value of an optional argument.
pub open spec fn sig_model(a: Option<Args>) -> Option<ArgsModel> {
    match a {
        Some(x) => Some(x.model()),
        None => None,
    }
}

/// Appends all of `v` to `out`.
fn append_all(out: &mut Vec<TokenTree>, v: &Vec<TokenTree>)
    ensures
        toks(final(out)@) == toks(old(out)@) + toks(v@),
{
    append_range(out, v, 0, v.len());
    proof {
        assert(toks(v@).subrange(0, v@.len() as int) =~= toks(v@));
    }
}

/// Appends the generic parameters of the async flavour.
fn push_async_params(out: &mut Vec<TokenTree>, item: &Item, sig: &Option<Args>)
    requires
        item.wf(),
    ensures
        toks(final(out)@) == toks(old(out)@) + async_params(
            item.tokens_view(),
            item.layout_view(),
            sig_model(*sig),
        ),
{
    proof {
        assert(toks(item.tokens@).len() == item.tokens.len());
        lemma_layout_bounds(toks(item.tokens@));
    }
    if let Some(a) = sig {
        if let Some(gn) = &a.generics {
            append_all(out, &gn.params);
            return;
        }
    }
    append_range(out, &item.tokens, item.layout.fn_pos + 2, item.layout.generics_end);
}

/// Appends the `where` clause of the async flavour.
fn push_async_where(out: &mut Vec<TokenTree>, item: &Item, sig: &Option<Args>)
    requires
        item.wf(),
    ensures
        toks(final(out)@) == toks(old(out)@) + async_where(
            item.tokens_view(),
            item.layout_view(),
            sig_model(*sig),
        ),
{
    proof {
        assert(toks(item.tokens@).len() == item.tokens.len());
        lemma_layout_bounds(toks(item.tokens@));
    }
    if let Some(a) = sig {
        if let Some(gn) = &a.generics {
            append_all(out, &gn.where_clause);
            return;
        }
    }
    append_range(out, &item.tokens, item.layout.output_end, item.layout.body_pos);
}

/// Appends the return type of the async flavour.
fn push_async_output(out: &mut Vec<TokenTree>, item: &Item, sig: &Option<Args>)
    requires
        item.wf(),
    ensures
        toks(final(out)@) == toks(old(out)@) + async_output(
            item.tokens_view(),
            item.layout_view(),
            sig_model(*sig),
        ),
{
    proof {
        assert(toks(item.tokens@).len() == item.tokens.len());
        lemma_layout_bounds(toks(item.tokens@));
    }
    if let Some(a) = sig {
        if let Some(o) = &a.output {
            append_all(out, o);
            return;
        }
    }
    append_range(out, &item.tokens, item.layout.generics_end + 1, item.layout.output_end);
}

/// Appends the parameter group of the async flavour.
fn push_async_inputs(out: &mut Vec<TokenTree>, item: &Item, sig: &Option<Args>)
    requires
        item.wf(),
    ensures
        toks(final(out)@) == toks(old(out)@).push(
            async_inputs(item.tokens_view(), item.layout_view(), sig_model(*sig)),
        ),
{
    let ghost s = toks(item.tokens@);
    proof {
        assert(s.len() == item.tokens.len());
        lemma_layout_bounds(s);
    }
    let g = item.layout.generics_end;
    match sig {
        Some(a) => {
            let inputs = copy_stream_range(&a.inputs, 0, a.inputs.len());
            proof {
                assert(toks(a.inputs@).subrange(0, a.inputs@.len() as int) =~= toks(a.inputs@));
            }
            push_tree(
                out,
                TokenTree::Group {
                    delimiter: Delimiter::Parenthesis,
                    stream: inputs,
                    span: span_id(&item.tokens[g]),
                },
            );
        },
        None => {
            let c = copy_tree(&item.tokens[g]);
            push_tree(out, c);
        },
    }
}

/// A copy of the body `t` without its inner attributes.
fn copy_body(t: &TokenTree) -> (r: TokenTree)
    ensures
        tok(r) == without_inner_attrs(tok(*t)),
{
    match t {
        TokenTree::Group { delimiter, stream, span } => {
            let e = find_inner_attrs_end(stream);
            TokenTree::Group {
                delimiter: *delimiter,
                stream: copy_stream_range(stream, e, stream.len()),
                span: *span,
            }
        },
        _ => copy_tree(t),
    }
}

/// The synchronous flavour of `item` before its markers are replaced.
fn build_sync_item(item: &Item) -> (r: Vec<TokenTree>)
    requires
        item.wf(),
    ensures
        toks(r@) == sync_item(item.tokens_view(), item.layout_view()),
{
    let v = &item.tokens;
    let ghost s = toks(v@);
    proof {
        assert(s.len() == v.len());
        lemma_layout_bounds(s);
    }
    let b = item.layout.body_pos;
    let mut out = copy_stream_range(v, 0, b);
    let c = copy_body(&v[b]);
    push_tree(&mut out, c);
    proof {
        assert(toks(out@) =~= sync_item(s, item.layout));
    }
    out
}

/// The async flavour of `item` before its markers are replaced.
fn build_async_item(item: &Item, sig: &Option<Args>) -> (r: Vec<TokenTree>)
    requires
        item.wf(),
    ensures
        toks(r@) == async_item(item.tokens_view(), item.layout_view(), sig_model(*sig)),
{
    let v = &item.tokens;
    let l = item.layout;
    let ghost s = toks(v@);
    proof {
        assert(s.len() == v.len());
        lemma_layout_bounds(s);
    }
    let f = l.fn_pos;
    let b = l.body_pos;
    let ip = find_async_insert_pos(v, l.attrs_end, f);
    let mut out: Vec<TokenTree> = Vec::new();
    append_range(&mut out, v, 0, ip);
    push_tree(&mut out, new_ident("async", CALL_SITE));
    append_range(&mut out, v, ip, f + 1);
    let name = match &v[f + 1] {
        TokenTree::Ident { name, .. } => {
            let mut n = name.clone();
            n.append("_async");
            n
        },
        _ => String::new(),
    };
    push_tree(&mut out, TokenTree::Ident { name, span: CALL_SITE });
    push_async_params(&mut out, item, sig);
    push_async_inputs(&mut out, item, sig);
    push_async_output(&mut out, item, sig);
    push_async_where(&mut out, item, sig);
    let c = copy_body(&v[b]);
    push_tree(&mut out, c);
    proof {
        assert(toks(out@) =~= async_item(s, l, sig_model(*sig)));
    }
    out
}

/// The positions of a layout are in order and within the tokens.
proof fn lemma_layout_bounds(s: Seq<Tok>)
    requires
        fn_layout(s) is Some,
        s.len() <= usize::MAX,
    ensures
        ({
            let l = fn_layout(s)->0;
            &&& l.attrs_end <= l.fn_pos
            &&& l.fn_pos + 2 <= l.generics_end
            &&& l.generics_end < l.output_end <= l.body_pos
            &&& l.body_pos + 1 == s.len()
            &&& s[l.fn_pos + 1] is Ident
        }),
{
    let a = attrs_end(s, 0);
    crate::grammar::lemma_attrs_end_bounds(s, 0);
    lemma_find_word_bounds(s, a, "fn"@);
    let f = find_word(s, a, "fn"@);
    if f + 2 < s.len() && is_punct(s[f + 2], '<') {
        crate::grammar::lemma_angle_end_bounds(s, f + 2, 0);
    }
    let g = fn_layout(s)->0.generics_end as int;
    let b = s.len() - 1;
    if has_output_at(s, g + 1) && g + 2 < b {
        lemma_find_word_bounds(s, g + 3, "where"@);
    }
    assert(a <= f < s.len());
    assert(g < b);
}

/// One flavour of `input`: for the async one, with the parts that
/// `async_signature` gives replaced; its `#[call_generic]` calls rewritten
/// and its `if _async` / `if _sync` expressions replaced.
pub fn convert_sync_async(input: &Item, is_async: bool, async_signature: Option<Args>) -> (r:
    Result<Vec<TokenTree>, MacroError>)
    requires
        input.wf(),
    ensures
        match r {
            Ok(v) => converted(
                input.tokens_view(),
                input.layout_view(),
                is_async,
                sig_model(async_signature),
            ) == Ok::<Seq<Tok>, (Seq<char>, u64)>(toks(v@)),
            Err(e) => converted(
                input.tokens_view(),
                input.layout_view(),
                is_async,
                sig_model(async_signature),
            ) == Err::<Seq<Tok>, (Seq<char>, u64)>(error_view(e)),
        },
{
    let item = if is_async {
        build_async_item(input, &async_signature)
    } else {
        build_sync_item(input)
    };
    let rewritten = match parse_quote_call_generic(item) {
        Ok(v) => v,
        Err(e) => {
            return Err(e);
        },
    };
    let mut d = DesugarIfAsync { is_async };
    Ok(d.desugar_if_async(rewritten))
}

/// The attribute's arguments as the expansion takes them.
struct ParsedArgs {
    sig: Option<Args>,
    sync_cfg: Option<Vec<TokenTree>>,
    async_cfg: Option<Vec<TokenTree>>,
}

impl ParsedArgs {
    /// The value of these arguments.
    spec fn model(self) -> ExpansionArgs {
        ExpansionArgs {
            sig: sig_model(self.sig),
            sync_cfg: opt_toks(self.sync_cfg),
            async_cfg: opt_toks(self.async_cfg),
        }
    }
}

/// The value of parsed arguments, or the error.
spec fn parsed_view(r: Result<ParsedArgs, MacroError>) -> Result<ExpansionArgs, (Seq<char>, u64)> {
    match r {
        Ok(p) => Ok(p.model()),
        Err(e) => Err(error_view(e)),
    }
}

/// Parses the attribute's arguments for the expansion: the result is what
/// `expansion_args` gives for the answers of `syn` that came back.
fn parse_expansion_args(args: &Vec<TokenTree>) -> (r: Result<ParsedArgs, MacroError>)
    ensures
        exists|c: ChecksModel| parsed_view(r) == expansion_args(toks(args@), c),
{
    let ghost any = ChecksModel { generics: None, inputs: None, output: None, where_clause: None };
    if args.len() == 0 {
        let r = Ok(ParsedArgs { sig: None, sync_cfg: None, async_cfg: None });
        assert(parsed_view(r) == expansion_args(toks(args@), any));
        return r;
    }
    let named = if ident_is(&args[0], "sync_cfg") || ident_is(&args[0], "async_cfg") {
        true
    } else if ident_is(&args[0], "async_signature") {
        match AsyncGenericAttributeArgs::parse(args) {
            Ok(_) => true,
            Err(_) => false,
        }
    } else {
        false
    };
    assert(named == named_arguments(toks(args@)));
    if !named {
        let p = Args::parse(args);
        let ghost c = choose|c: ChecksModel| args_view(p) == args_result_given(toks(args@), c);
        let r = match p {
            Ok(a) => Ok(ParsedArgs { sig: Some(a), sync_cfg: None, async_cfg: None }),
            Err(e) => Err(e),
        };
        assert(parsed_view(r) == expansion_args(toks(args@), c));
        return r;
    }
    match AsyncGenericAttributeArgs::parse(args) {
        Err(e) => {
            let r = Err(e);
            assert(parsed_view(r) == expansion_args(toks(args@), any));
            r
        },
        Ok(m) => {
            let AsyncGenericAttributeArgs { async_signature, sync_cfg, async_cfg } = m;
            match async_signature {
                None => {
                    let r = Ok(ParsedArgs { sig: None, sync_cfg, async_cfg });
                    assert(parsed_view(r) == expansion_args(toks(args@), any));
                    r
                },
                Some(t) => {
                    let ghost tv = toks(t@);
                    let mut sig_tokens: Vec<TokenTree> = Vec::new();
                    push_tree(&mut sig_tokens, new_ident("async_signature", CALL_SITE));
                    push_tree(
                        &mut sig_tokens,
                        TokenTree::Group {
                            delimiter: Delimiter::Parenthesis,
                            stream: t,
                            span: CALL_SITE,
                        },
                    );
                    proof {
                        assert(toks(sig_tokens@) =~= signature_tokens(tv));
                    }
                    let p = Args::parse(&sig_tokens);
                    let ghost c = choose|c: ChecksModel|
                        args_view(p) == args_result_given(toks(sig_tokens@), c);
                    let r = match p {
                        Ok(a) => Ok(ParsedArgs { sig: Some(a), sync_cfg, async_cfg }),
                        Err(e) => Err(e),
                    };
                    assert(parsed_view(r) == expansion_args(toks(args@), c));
                    r
                },
            }
        },
    }
}

/// Appends the attribute `#[cfg(p)]` for the predicate `c`, if there is one.
fn push_cfg_attr(out: &mut Vec<TokenTree>, c: Option<Vec<TokenTree>>)
    ensures
        toks(final(out)@) == toks(old(out)@) + cfg_attr(opt_toks(c)),
{
    match c {
        None => {
            proof {
                assert(toks(out@) + Seq::<Tok>::empty() =~= toks(out@));
            }
        },
        Some(p) => {
            let ghost pv = toks(p@);
            let mut inner: Vec<TokenTree> = Vec::new();
            push_tree(&mut inner, new_ident("cfg", CALL_SITE));
            push_tree(
                &mut inner,
                TokenTree::Group { delimiter: Delimiter::Parenthesis, stream: p, span: CALL_SITE },
            );
            let ghost before = toks(out@);
            push_tree(out, TokenTree::Punct { ch: '#', joint: false, span: CALL_SITE });
            push_tree(
                out,
                TokenTree::Group { delimiter: Delimiter::Bracket, stream: inner, span: CALL_SITE },
            );
            proof {
                assert(toks(inner@) =~= seq![
                    Tok::Ident { name: "cfg"@, span: CALL_SITE },
                    Tok::Group { delimiter: Delimiter::Parenthesis, stream: pv, span: CALL_SITE },
                ]);
                assert(toks(out@) =~= before + cfg_attr(Some(pv)));
            }
        },
    }
}

/// A result of the expansion, as a value.
pub open spec fn expansion_view(r: Result<Vec<TokenTree>, MacroError>) -> Result<
    Seq<Tok>,
    (Seq<char>, u64),
> {
    match r {
        Ok(v) => Ok(toks(v@)),
        Err(e) => Err(error_view(e)),
    }
}

/// Expands `#[async_generic(args)]` on the function item `input` into its
/// synchronous flavour followed by its async flavour: the result is what
/// `expansion` gives for the answers of `syn` that came back.
pub fn async_generic(args: Vec<TokenTree>, input: Vec<TokenTree>) -> (r: Result<
    Vec<TokenTree>,
    MacroError,
>)
    ensures
        exists|c: ChecksModel, rejection: Option<Seq<char>>|
            expansion_view(r) == expansion(toks(args@), toks(input@), c, rejection),
{
    let ghost a = toks(args@);
    let ghost s = toks(input@);
    let p = parse_expansion_args(&args);
    let ghost c = choose|c: ChecksModel| parsed_view(p) == expansion_args(a, c);
    let parsed = match p {
        Ok(x) => x,
        Err(e) => {
            let r = Err(e);
            assert(expansion_view(r) == expansion(a, s, c, None));
            return r;
        },
    };
    let it = Item::parse(input);
    let ghost rej = choose|rejection: Option<Seq<char>>|
        #![trigger item_result(s, rejection)]
        match it {
            Ok(it) => it.wf() && it.tokens_view() == s && item_result(s, rejection) == Ok::<
                FnLayout,
                (Seq<char>, u64),
            >(it.layout_view()),
            Err(e) => item_result(s, rejection) == Err::<FnLayout, (Seq<char>, u64)>(
                error_view(e),
            ),
        };
    let item = match it {
        Ok(it) => it,
        Err(e) => {
            let r = Err(e);
            assert(expansion_view(r) == expansion(a, s, c, rej));
            return r;
        },
    };
    let ParsedArgs { sig, sync_cfg, async_cfg } = parsed;
    let sync_part = match convert_sync_async(&item, false, None) {
        Ok(v) => v,
        Err(e) => {
            let r = Err(e);
            assert(expansion_view(r) == expansion(a, s, c, rej));
            return r;
        },
    };
    let async_part = match convert_sync_async(&item, true, sig) {
        Ok(v) => v,
        Err(e) => {
            let r = Err(e);
            assert(expansion_view(r) == expansion(a, s, c, rej));
            return r;
        },
    };
    let mut tokens: Vec<TokenTree> = Vec::new();
    push_cfg_attr(&mut tokens, sync_cfg);
    append_all(&mut tokens, &sync_part);
    push_cfg_attr(&mut tokens, async_cfg);
    append_all(&mut tokens, &async_part);
    proof {
        assert(toks(Seq::<TokenTree>::empty()) =~= Seq::<Tok>::empty());
    }
    let r = Ok(tokens);
    assert(expansion_view(r) == expansion(a, s, c, rej));
    r
}

/// The tokens of `async_item` before the name, and the name.
proof fn lemma_async_item_prefix(s: Seq<Tok>, l: FnLayout, sig: Option<ArgsModel>)
    requires
        fn_layout(s) == Some(l),
        s.len() <= usize::MAX,
    ensures
        ({
            let x = async_item(s, l, sig);
            let f = l.fn_pos as int;
            let ip = async_insert_pos(s, l.attrs_end as int, f);
            &&& l.attrs_end <= ip <= f
            &&& x.len() > f + 2
            &&& forall|k: int| 0 <= k < ip ==> x[k] == s[k]
            &&& x[ip] == Tok::Ident { name: "async"@, span: CALL_SITE }
            &&& forall|k: int| ip < k <= f + 1 ==> x[k] == s[k - 1]
            &&& x[f + 2] == Tok::Ident { name: ident_name(s[f + 1]) + "_async"@, span: CALL_SITE }
        }),
{
    lemma_layout_bounds(s);
    lemma_async_insert_pos_bounds(s, l.attrs_end as int, l.fn_pos as int);
}

/// Bounds of `async_insert_pos`.
proof fn lemma_async_insert_pos_bounds(s: Seq<Tok>, k: int, f: int)
    requires
        k <= f,
    ensures
        k <= async_insert_pos(s, k, f) <= f,
    decreases f - k,
{
    reveal_strlit("const");
    reveal_strlit("unsafe");
    reveal_strlit("safe");
    reveal_strlit("extern");
    assert("const"@.len() != "unsafe"@.len());
    assert("const"@.len() != "safe"@.len());
    assert("const"@.len() != "extern"@.len());
    if k < f && !is_ident(s[k], "const"@) && !(is_ident(s[k], "unsafe"@) || is_ident(s[k], "safe"@)
        || is_ident(s[k], "extern"@)) {
        lemma_async_insert_pos_bounds(s, k + 1, f);
    }
}

/// The replacement signature that the arguments `args` give.
pub open spec fn given_sig(args: Seq<Tok>, c: ChecksModel) -> Option<ArgsModel> {
    expansion_args(args, c)->Ok_0.sig
}

/// Where the synchronous flavour ends in the expansion of `args` on
/// `input`, its `cfg` attribute included.
pub open spec fn sync_end(args: Seq<Tok>, input: Seq<Tok>, c: ChecksModel, rej: Option<Seq<char>>) -> int {
    let x = expansion_args(args, c)->Ok_0;
    let l = item_result(input, rej)->Ok_0;
    (cfg_attr(x.sync_cfg).len() + converted(input, l, false, None)->Ok_0.len()) as int
}

/// Where the async flavour starts in the expansion, after its `cfg`
/// attribute.
pub open spec fn async_start(args: Seq<Tok>, input: Seq<Tok>, c: ChecksModel, rej: Option<Seq<char>>) -> int {
    sync_end(args, input, c, rej) + cfg_attr(expansion_args(args, c)->Ok_0.async_cfg).len()
}

/// The parts of a successful expansion.
proof fn lemma_expansion_parts(
    args: Seq<Tok>,
    input: Seq<Tok>,
    c: ChecksModel,
    rej: Option<Seq<char>>,
)
    requires
        expansion(args, input, c, rej) is Ok,
    ensures
        ({
            let x = expansion_args(args, c)->Ok_0;
            let l = item_result(input, rej)->Ok_0;
            let sp = converted(input, l, false, None)->Ok_0;
            let ap = converted(input, l, true, x.sig)->Ok_0;
            let out = expansion(args, input, c, rej)->Ok_0;
            &&& expansion_args(args, c) is Ok
            &&& item_result(input, rej) is Ok
            &&& converted(input, l, false, None) is Ok
            &&& converted(input, l, true, x.sig) is Ok
            &&& out == cfg_attr(x.sync_cfg) + sp + cfg_attr(x.async_cfg) + ap
            &&& out.len() == async_start(args, input, c, rej) + ap.len()
            &&& forall|k: int| 0 <= k < ap.len() ==> out[async_start(args, input, c, rej) + k] == #[trigger] ap[k]
            &&& forall|k: int| 0 <= k < sp.len() ==> out[cfg_attr(x.sync_cfg).len() + k] == #[trigger] sp[k]
            &&& out.subrange(0, sync_end(args, input, c, rej)) == cfg_attr(x.sync_cfg) + sp
            &&& out.subrange(sync_end(args, input, c, rej), async_start(args, input, c, rej)) == cfg_attr(x.async_cfg)
        }),
{
    let x = expansion_args(args, c)->Ok_0;
    let l = item_result(input, rej)->Ok_0;
    let sp = converted(input, l, false, None)->Ok_0;
    let ap = converted(input, l, true, x.sig)->Ok_0;
    let out = expansion(args, input, c, rej)->Ok_0;
    let c1 = cfg_attr(x.sync_cfg);
    let c2 = cfg_attr(x.async_cfg);
    assert(out == c1 + sp + c2 + ap);
    assert(out.subrange(0, sync_end(args, input, c, rej)) =~= c1 + sp);
    assert(out.subrange(sync_end(args, input, c, rej), async_start(args, input, c, rej)) =~= c2);
}

/// A body without inner attributes is kept as it is.
proof fn lemma_no_inner_attrs(s: Seq<Tok>, l: FnLayout)
    requires
        fn_layout(s) == Some(l),
        s.len() <= usize::MAX,
        !has_inner_attrs(s, l),
    ensures
        without_inner_attrs(s[l.body_pos as int]) == s[l.body_pos as int],
        sync_item(s, l) == s,
{
    lemma_layout_bounds(s);
    let b = l.body_pos as int;
    assert(is_group(s[b], Delimiter::Brace));
    if let Tok::Group { delimiter, stream, span } = s[b] {
        crate::grammar::lemma_inner_attrs_end_bounds(stream, 0);
        assert(group_stream(s[b]) == stream);
        assert(inner_attrs_end(stream, 0) == 0);
        assert(stream.subrange(0, stream.len() as int) =~= stream);
    }
    assert(sync_item(s, l) =~= s);
}

/// A flavour without `#[call_generic]` is only desugared.
proof fn lemma_converted_unmarked(s: Seq<Tok>, l: FnLayout, is_async: bool, sig: Option<ArgsModel>)
    requires
        !has_call_generic_from(flavour(s, l, is_async, sig), 0),
    ensures
        converted(s, l, is_async, sig) == Ok::<Seq<Tok>, (Seq<char>, u64)>(
            desugar(is_async, flavour(s, l, is_async, sig)),
        ),
{
    law_unmarked_calls_unchanged(flavour(s, l, is_async, sig));
}

/// The async flavour is declared `async`, and its name is the name of the
/// function with the suffix `_async`. (Stated for functions without
/// `#[call_generic]`, in which no `if` stands before the name, as in every
/// function item.)
pub proof fn law_async_flavour_is_async_and_renamed(
    args: Seq<Tok>,
    input: Seq<Tok>,
    c: ChecksModel,
    rej: Option<Seq<char>>,
)
    requires
        expansion(args, input, c, rej) is Ok,
        input.len() <= usize::MAX,
        forall|k: int|
            0 <= k <= item_result(input, rej)->Ok_0.fn_pos + 1 ==> !is_ident(#[trigger] input[k], "if"@),
        !has_call_generic_from(async_item(input, item_result(input, rej)->Ok_0, given_sig(args, c)), 0),
    ensures
        ({
            let l = item_result(input, rej)->Ok_0;
            let out = expansion(args, input, c, rej)->Ok_0;
            let n = async_start(args, input, c, rej);
            let f = l.fn_pos as int;
            let ip = async_insert_pos(input, l.attrs_end as int, f);
            &&& out[n + ip] == Tok::Ident { name: "async"@, span: CALL_SITE }
            &&& out[n + f + 2] == Tok::Ident {
                name: ident_name(input[f + 1]) + "_async"@,
                span: CALL_SITE,
            }
        }),
{
    reveal_strlit("if");
    reveal_strlit("async");
    reveal_strlit("_async");
    let l = item_result(input, rej)->Ok_0;
    let sig = given_sig(args, c);
    lemma_expansion_parts(args, input, c, rej);
    let x = async_item(input, l, sig);
    lemma_converted_unmarked(input, l, true, sig);
    lemma_async_item_prefix(input, l, sig);
    let f = l.fn_pos as int;
    let ip = async_insert_pos(input, l.attrs_end as int, f);
    let d = desugar_groups(true, x);
    assert forall|k: int| 0 <= k < f + 3 implies !is_ident(#[trigger] d[k], "if"@) by {
        if d[k] is Group {
        } else {
            assert(d.len() == x.len());
            if !(x[k] is Group) {
                lemma_desugar_groups_keeps(true, x, k);
                if k < ip {
                    assert(x[k] == input[k]);
                } else if k == ip {
                    assert("async"@.len() != "if"@.len());
                } else if k <= f + 1 {
                    assert(x[k] == input[k - 1]);
                } else {
                    assert((ident_name(input[f + 1]) + "_async"@).len() != "if"@.len());
                }
            }
        }
    }
    lemma_scan_prefix(true, d, 0, f + 3);
    lemma_desugar_groups_keeps(true, x, ip);
    lemma_desugar_groups_keeps(true, x, f + 2);
    let ap = desugar(true, x);
    assert(ap[ip] == x[ip]);
    assert(ap[f + 2] == x[f + 2]);
}

/// A function in which neither `_async`, `_sync` nor `call_generic` occurs,
/// and whose body starts with no inner attribute, comes out unchanged as
/// its synchronous flavour (after its `cfg` attribute, if `sync_cfg` gives
/// one).
#[verifier::spinoff_prover]
pub proof fn law_unmarked_function_kept_as_sync_flavour(
    args: Seq<Tok>,
    input: Seq<Tok>,
    c: ChecksModel,
    rej: Option<Seq<char>>,
)
    requires
        expansion(args, input, c, rej) is Ok,
        input.len() <= usize::MAX,
        !mentions_marker_from(input, 0),
        !has_call_generic_from(input, 0),
        !has_inner_attrs(input, item_result(input, rej)->Ok_0),
    ensures
        ({
            let k = cfg_attr(expansion_args(args, c)->Ok_0.sync_cfg).len() as int;
            expansion(args, input, c, rej)->Ok_0.subrange(k, k + input.len()) == input
        }),
{
    lemma_expansion_parts(args, input, c, rej);
    let l = item_result(input, rej)->Ok_0;
    lemma_no_inner_attrs(input, l);
    lemma_converted_unmarked(input, l, false, None);
    law_unmarked_tokens_unchanged(false, input);
    let x = expansion_args(args, c)->Ok_0;
    let c1 = cfg_attr(x.sync_cfg);
    let out = expansion(args, input, c, rej)->Ok_0;
    let rest = cfg_attr(x.async_cfg) + converted(input, l, true, x.sig)->Ok_0;
    assert(out =~= c1 + input + rest);
    assert(out.subrange(c1.len() as int, (c1.len() + input.len()) as int) =~= input);
}

/// Without arguments, the two flavours of a function in which neither
/// `_async`, `_sync` nor `call_generic` occurs, and whose body starts with
/// no inner attribute, are identical but for the `async` keyword and the
/// suffix `_async` of the name. (Stated for names that are not empty, as no
/// identifier is.)
pub proof fn law_flavours_differ_only_in_async_and_name(
    input: Seq<Tok>,
    c: ChecksModel,
    rej: Option<Seq<char>>,
)
    requires
        expansion(Seq::empty(), input, c, rej) is Ok,
        !mentions_marker_from(input, 0),
        !has_call_generic_from(input, 0),
        !has_inner_attrs(input, item_result(input, rej)->Ok_0),
        !has_call_generic_from(async_item(input, item_result(input, rej)->Ok_0, None), 0),
        input.len() <= usize::MAX,
        ident_name(input[item_result(input, rej)->Ok_0.fn_pos + 1]).len() > 0,
    ensures
        ({
            let l = item_result(input, rej)->Ok_0;
            let f = l.fn_pos as int;
            let ip = async_insert_pos(input, l.attrs_end as int, f);
            expansion(Seq::empty(), input, c, rej)->Ok_0 == input + (input.subrange(0, ip) + seq![
                Tok::Ident { name: "async"@, span: CALL_SITE },
            ] + input.subrange(ip, f + 1) + seq![
                Tok::Ident { name: ident_name(input[f + 1]) + "_async"@, span: CALL_SITE },
            ] + input.subrange(f + 2, input.len() as int))
        }),
{
    reveal_strlit("async");
    reveal_strlit("_async");
    reveal_strlit("_sync");
    let args = Seq::<Tok>::empty();
    lemma_expansion_parts(args, input, c, rej);
    let l = item_result(input, rej)->Ok_0;
    lemma_layout_bounds(input);
    lemma_no_inner_attrs(input, l);
    lemma_converted_unmarked(input, l, false, None);
    lemma_converted_unmarked(input, l, true, None);
    lemma_layout_bounds(input);
    lemma_async_insert_pos_bounds(input, l.attrs_end as int, l.fn_pos as int);
    let f = l.fn_pos as int;
    let ip = async_insert_pos(input, l.attrs_end as int, f);
    let kw = Tok::Ident { name: "async"@, span: CALL_SITE };
    let name = Tok::Ident { name: ident_name(input[f + 1]) + "_async"@, span: CALL_SITE };
    let x = async_item(input, l, None);
    let y = input.subrange(0, ip) + seq![kw] + input.subrange(ip, f + 1) + seq![name]
        + input.subrange(f + 2, input.len() as int);
    assert(x =~= y);
    assert forall|k: int| 0 <= k < y.len() implies !tok_mentions_marker(#[trigger] y[k]) by {
        if k < ip {
            lemma_mentions_at(input, 0, k);
        } else if k == ip {
            assert("async"@.len() != "_async"@.len());
            assert("async"@[0] != "_sync"@[0]);
        } else if k <= f + 1 {
            lemma_mentions_at(input, 0, k - 1);
        } else if k == f + 2 {
            assert((ident_name(input[f + 1]) + "_async"@).len() > "_async"@.len());
        } else {
            lemma_mentions_at(input, 0, k - 1);
        }
    }
    lemma_no_mentions(y, 0);
    law_unmarked_tokens_unchanged(true, y);
    law_unmarked_tokens_unchanged(false, input);
    assert(expansion_args(args, c)->Ok_0.sync_cfg is None);
    assert(expansion_args(args, c)->Ok_0.async_cfg is None);
    let out = expansion(args, input, c, rej)->Ok_0;
    assert(out =~= input + y);
}

/// The synchronous flavour comes first: its `cfg` attribute if `sync_cfg`
/// gives one, then the function as written (without the inner attributes
/// of its body) with its `#[call_generic]` calls rewritten and its
/// `if _async` / `if _sync` expressions replaced, whatever `async_signature`
/// gives.
pub proof fn law_sync_flavour_is_the_function_desugared(
    args: Seq<Tok>,
    input: Seq<Tok>,
    c: ChecksModel,
    rej: Option<Seq<char>>,
)
    requires
        expansion(args, input, c, rej) is Ok,
    ensures
        ({
            let s = sync_item(input, item_result(input, rej)->Ok_0);
            &&& call_generic_result(s) is Ok
            &&& expansion(args, input, c, rej)->Ok_0.subrange(0, sync_end(args, input, c, rej)) == cfg_attr(
                expansion_args(args, c)->Ok_0.sync_cfg,
            ) + desugar(false, call_generic_result(s)->Ok_0)
        }),
{
    lemma_expansion_parts(args, input, c, rej);
}

/// `sync_cfg(p)` puts `#[cfg(p)]` on the synchronous flavour and
/// `async_cfg(q)` puts `#[cfg(q)]` on the async one; a flavour without one
/// gets no attribute.
pub proof fn law_cfg_arguments_gate_their_flavours(
    args: Seq<Tok>,
    input: Seq<Tok>,
    c: ChecksModel,
    rej: Option<Seq<char>>,
)
    requires
        expansion(args, input, c, rej) is Ok,
        attribute_args_result(args) is Ok,
    ensures
        ({
            let m = attribute_args_result(args)->Ok_0;
            let out = expansion(args, input, c, rej)->Ok_0;
            &&& out.subrange(0, cfg_attr(m.sync_cfg).len() as int) == cfg_attr(m.sync_cfg)
            &&& out.subrange(sync_end(args, input, c, rej), async_start(args, input, c, rej)) == cfg_attr(
                m.async_cfg,
            )
            &&& async_start(args, input, c, rej) == sync_end(args, input, c, rej) + cfg_attr(m.async_cfg).len()
        }),
{
    lemma_expansion_parts(args, input, c, rej);
    let m = attribute_args_result(args)->Ok_0;
    let x = expansion_args(args, c)->Ok_0;
    if args.len() == 0 {
        assert(group_list(args, 0) == Ok::<
            Seq<NamedGroupModel>,
            (Seq<char>, u64),
        >(Seq::empty()));
        assert(m == no_arguments());
    }
    assert(x.sync_cfg == m.sync_cfg);
    assert(x.async_cfg == m.async_cfg);
    let out = expansion(args, input, c, rej)->Ok_0;
    let c1 = cfg_attr(x.sync_cfg);
    assert(out.subrange(0, c1.len() as int) =~= out.subrange(0, sync_end(args, input, c, rej)).subrange(
        0,
        c1.len() as int,
    ));
    assert((c1 + converted(input, item_result(input, rej)->Ok_0, false, None)->Ok_0).subrange(
        0,
        c1.len() as int,
    ) =~= c1);
}

/// With an `async_signature` argument, the parameters of the async flavour
/// are those of the argument, in parentheses that keep the span of the
/// function's own. (Stated for functions without `#[call_generic]`, for
/// parameters in which neither `_async` nor `_sync` occurs, and where no
/// `if` stands before the parameters of either signature, as in every
/// signature.)
pub proof fn law_async_signature_replaces_parameters(
    args: Seq<Tok>,
    input: Seq<Tok>,
    c: ChecksModel,
    rej: Option<Seq<char>>,
)
    requires
        expansion(args, input, c, rej) is Ok,
        given_sig(args, c) is Some,
        input.len() <= usize::MAX,
        !mentions_marker_from(given_sig(args, c)->0.inputs, 0),
        !has_call_generic_from(async_item(input, item_result(input, rej)->Ok_0, given_sig(args, c)), 0),
        forall|k: int|
            0 <= k < item_result(input, rej)->Ok_0.generics_end ==> !is_ident(
                #[trigger] input[k],
                "if"@,
            ),
        forall|k: int|
            0 <= k < async_params(input, item_result(input, rej)->Ok_0, given_sig(args, c)).len()
                ==> !is_ident(
                #[trigger] async_params(input, item_result(input, rej)->Ok_0, given_sig(args, c))[k],
                "if"@,
            ),
    ensures
        ({
            let a = given_sig(args, c)->0;
            let l = item_result(input, rej)->Ok_0;
            let out = expansion(args, input, c, rej)->Ok_0;
            let n = async_start(args, input, c, rej);
            let k = l.fn_pos + 3 + async_params(input, l, Some(a)).len();
            out[n + k] == Tok::Group {
                delimiter: Delimiter::Parenthesis,
                stream: a.inputs,
                span: span_of(input[l.generics_end as int]),
            }
        }),
{
    reveal_strlit("if");
    reveal_strlit("async");
    reveal_strlit("_async");
    let a = given_sig(args, c)->0;
    let sig = Some(a);
    let l = item_result(input, rej)->Ok_0;
    lemma_expansion_parts(args, input, c, rej);
    lemma_converted_unmarked(input, l, true, sig);
    lemma_layout_bounds(input);
    lemma_async_item_prefix(input, l, sig);
    let f = l.fn_pos as int;
    let ip = async_insert_pos(input, l.attrs_end as int, f);
    let x = async_item(input, l, sig);
    let ps = async_params(input, l, sig);
    let k0 = f + 3 + ps.len();
    assert(x[k0] == async_inputs(input, l, sig));
    let d = desugar_groups(true, x);
    assert forall|k: int| 0 <= k <= k0 implies !is_ident(#[trigger] d[k], "if"@) by {
        if !(x[k] is Group) {
            lemma_desugar_groups_keeps(true, x, k);
            if k < ip {
                assert(x[k] == input[k]);
            } else if k == ip {
                assert("async"@.len() != "if"@.len());
            } else if k <= f + 1 {
                assert(x[k] == input[k - 1]);
            } else if k == f + 2 {
                assert((ident_name(input[f + 1]) + "_async"@).len() != "if"@.len());
            } else if k < k0 {
                assert(x[k] == ps[k - f - 3]);
            }
        }
    }
    assert(d[k0] == x[k0]) by {
        law_unmarked_tokens_unchanged(true, a.inputs);
    }
    lemma_scan_prefix(true, d, 0, k0 + 1);
    let ap = desugar(true, x);
    assert(ap[k0] == x[k0]);
}

/// Where `async` goes among the qualifiers of a function: after `const` if
/// there is one, and otherwise directly before the first of `unsafe`,
/// `safe`, `extern` or `fn`. So no `unsafe`, `safe` or `extern` stands
/// before it, a `const` before it stands directly before it, and it stands
/// before `fn`, before one of `unsafe`, `safe`, `extern`, or after `const`.
pub proof fn law_async_goes_after_const_and_before_unsafe(s: Seq<Tok>, k: int, f: int)
    requires
        0 <= k <= f <= s.len(),
    ensures
        ({
            let p = async_insert_pos(s, k, f);
            &&& k <= p <= f
            &&& forall|j: int|
                k <= j < p ==> !is_ident(#[trigger] s[j], "unsafe"@) && !is_ident(s[j], "safe"@)
                    && !is_ident(s[j], "extern"@)
            &&& forall|j: int| k <= j < p && is_ident(#[trigger] s[j], "const"@) ==> j == p - 1
            &&& {
                ||| p == f
                ||| is_ident(s[p], "unsafe"@)
                ||| is_ident(s[p], "safe"@)
                ||| is_ident(s[p], "extern"@)
                ||| (p > k && is_ident(s[p - 1], "const"@))
            }
        }),
    decreases f - k,
{
    reveal_strlit("const");
    reveal_strlit("unsafe");
    reveal_strlit("safe");
    reveal_strlit("extern");
    assert("const"@.len() != "unsafe"@.len());
    assert("const"@.len() != "safe"@.len());
    assert("const"@.len() != "extern"@.len());
    if k < f && !is_ident(s[k], "const"@) && !(is_ident(s[k], "unsafe"@) || is_ident(s[k], "safe"@)
        || is_ident(s[k], "extern"@)) {
        law_async_goes_after_const_and_before_unsafe(s, k + 1, f);
    }
}

/// Where `async_signature` gives no generics, the async flavour ends with
/// the parameters it gives, the return type it gives (or the function's
/// own), the function's own `where` clause, and the body; without
/// `async_signature`, with the function's own parameters, return type and
/// `where` clause.
pub proof fn law_async_flavour_keeps_what_is_not_replaced(
    s: Seq<Tok>,
    l: FnLayout,
    sig: Option<ArgsModel>,
)
    requires
        fn_layout(s) == Some(l),
        s.len() <= usize::MAX,
        sig is None || sig->0.generics is None,
    ensures
        ({
            let x = async_item(s, l, sig);
            let g = l.generics_end as int;
            let own_where = s.subrange(l.output_end as int, l.body_pos as int);
            let own_output = s.subrange(g + 1, l.output_end as int);
            let out = match sig {
                Some(a) => match a.output {
                    Some(t) => t,
                    None => own_output,
                },
                None => own_output,
            };
            let inputs = match sig {
                Some(a) => Tok::Group {
                    delimiter: Delimiter::Parenthesis,
                    stream: a.inputs,
                    span: span_of(s[g]),
                },
                None => s[g],
            };
            let tail = seq![inputs] + out + own_where + seq![without_inner_attrs(s[l.body_pos as int])];
            &&& x.len() >= tail.len()
            &&& x.subrange(x.len() - tail.len(), x.len() as int) == tail
        }),
{
    let x = async_item(s, l, sig);
    let g = l.generics_end as int;
    let own_where = s.subrange(l.output_end as int, l.body_pos as int);
    let own_output = s.subrange(g + 1, l.output_end as int);
    let out = async_output(s, l, sig);
    let inputs = async_inputs(s, l, sig);
    let tail = seq![inputs] + out + own_where + seq![without_inner_attrs(s[l.body_pos as int])];
    assert(async_where(s, l, sig) == own_where);
    let f = l.fn_pos as int;
    let ip = async_insert_pos(s, l.attrs_end as int, f);
    let name = Tok::Ident { name: ident_name(s[f + 1]) + "_async"@, span: CALL_SITE };
    let kw = Tok::Ident { name: "async"@, span: CALL_SITE };
    let head = s.subrange(0, ip) + seq![kw] + s.subrange(ip, f + 1) + seq![name] + async_params(
        s,
        l,
        sig,
    );
    assert(x =~= head + tail);
    assert(x.subrange(x.len() - tail.len(), x.len() as int) =~= tail);
}

/// A function item written as qualifiers without `fn`, then `fn`, a name,
/// parameters, an optional return type `-> ..` without `where`, an optional
/// `where` clause and a body has the layout that says so, with or without
/// a return type or a `where` clause.
pub proof fn law_function_items_have_a_layout(
    quals: Seq<Tok>,
    kw_fn: Tok,
    name: Tok,
    params: Tok,
    ret: Seq<Tok>,
    wh: Seq<Tok>,
    body: Tok,
)
    requires
        forall|k: int| 0 <= k < quals.len() ==> !is_ident(#[trigger] quals[k], "fn"@),
        is_ident(kw_fn, "fn"@),
        name is Ident,
        is_group(params, Delimiter::Parenthesis),
        ret.len() == 0 || (ret.len() >= 3 && is_joint_punct(ret[0], '-') && is_punct(ret[1], '>')),
        forall|k: int| 0 <= k < ret.len() ==> !is_ident(#[trigger] ret[k], "where"@),
        wh.len() == 0 || is_ident(wh[0], "where"@),
        is_group(body, Delimiter::Brace),
        quals.len() + 4 + ret.len() + wh.len() <= usize::MAX,
    ensures
        ({
            let s = quals + seq![kw_fn, name, params] + ret + wh + seq![body];
            &&& fn_layout(s) is Some
            &&& fn_layout(s)->0.fn_pos == quals.len()
            &&& fn_layout(s)->0.generics_end == quals.len() + 2
            &&& fn_layout(s)->0.output_end == quals.len() + 3 + ret.len()
            &&& fn_layout(s)->0.body_pos == s.len() - 1
        }),
{
    reveal_strlit("fn");
    reveal_strlit("where");
    let s = quals + seq![kw_fn, name, params] + ret + wh + seq![body];
    let q = quals.len() as int;
    let g = q + 2;
    let b = s.len() - 1;
    assert(s[q] == kw_fn);
    assert(s[q + 1] == name);
    assert(s[g] == params);
    assert(s[b] == body);
    lemma_attrs_end_before_fn(s, 0, q);
    let a = attrs_end(s, 0);
    crate::grammar::lemma_attrs_end_bounds(s, 0);
    assert forall|m: int| a <= m < q implies !is_ident(#[trigger] s[m], "fn"@) by {
        assert(s[m] == quals[m]);
    }
    lemma_find_word_at(s, a, q, "fn"@);
    assert(!is_punct(s[g], '<'));
    if ret.len() > 0 {
        assert(s[g + 1] == ret[0]);
        assert(s[g + 2] == ret[1]);
        assert(has_output_at(s, g + 1));
        let w = g + 1 + ret.len();
        assert forall|m: int| g + 3 <= m < w implies !is_ident(#[trigger] s[m], "where"@) by {
            assert(s[m] == ret[m - g - 1]);
        }
        if wh.len() > 0 {
            assert(s[w] == wh[0]);
            lemma_find_word_at(s, g + 3, w, "where"@);
        } else {
            assert(w == b);
            assert(!is_ident(s[b], "where"@));
            lemma_find_word_at_end(s, g + 3, "where"@);
        }
    } else {
        if wh.len() > 0 {
            assert(s[g + 1] == wh[0]);
        } else {
            assert(g + 1 == b);
        }
        assert(!has_output_at(s, g + 1));
    }
    assert(a <= q);
    assert(find_word(s, a, "fn"@) == q);
    assert(output_end(s, g, b) == g + 1 + ret.len());
    assert(fn_layout(s) is Some);
}

/// The outer attributes at the start of `s` end no later than the `fn` at
/// position `q`.
proof fn lemma_attrs_end_before_fn(s: Seq<Tok>, i: int, q: int)
    requires
        0 <= i <= q < s.len(),
        is_ident(s[q], "fn"@),
    ensures
        attrs_end(s, i) <= q,
    decreases q - i,
{
    if i + 1 < s.len() && is_punct(s[i], '#') && is_group(s[i + 1], Delimiter::Bracket) {
        assert(i != q);
        assert(i + 1 != q);
        lemma_attrs_end_before_fn(s, i + 2, q);
    }
}

/// `find_word` stops at the first position that holds the word.
proof fn lemma_find_word_at(s: Seq<Tok>, k: int, w: int, word: Seq<char>)
    requires
        0 <= k <= w < s.len(),
        is_ident(s[w], word),
        forall|m: int| k <= m < w ==> !is_ident(#[trigger] s[m], word),
    ensures
        find_word(s, k, word) == w,
    decreases w - k,
{
    if k < w {
        lemma_find_word_at(s, k + 1, w, word);
    }
}

/// `find_word` reaches the end where the word is nowhere.
proof fn lemma_find_word_at_end(s: Seq<Tok>, k: int, word: Seq<char>)
    requires
        0 <= k,
        forall|m: int| k <= m < s.len() ==> !is_ident(#[trigger] s[m], word),
    ensures
        find_word(s, k, word) == s.len(),
    decreases s.len() - k,
{
    if k < s.len() {
        lemma_find_word_at_end(s, k + 1, word);
    }
}

/// A generic function item written as qualifiers without `fn`, then `fn`,
/// a name, generic parameters `<..>` (without further angle brackets),
/// parameters, an optional return type `-> ..` without `where`, an
/// optional `where` clause and a body has the layout that says so.
pub proof fn law_generic_function_items_have_a_layout(
    quals: Seq<Tok>,
    kw_fn: Tok,
    name: Tok,
    gen: Seq<Tok>,
    params: Tok,
    ret: Seq<Tok>,
    wh: Seq<Tok>,
    body: Tok,
)
    requires
        forall|k: int| 0 <= k < quals.len() ==> !is_ident(#[trigger] quals[k], "fn"@),
        is_ident(kw_fn, "fn"@),
        name is Ident,
        simple_angle(gen),
        is_group(params, Delimiter::Parenthesis),
        ret.len() == 0 || (ret.len() >= 3 && is_joint_punct(ret[0], '-') && is_punct(ret[1], '>')),
        forall|k: int| 0 <= k < ret.len() ==> !is_ident(#[trigger] ret[k], "where"@),
        wh.len() == 0 || is_ident(wh[0], "where"@),
        is_group(body, Delimiter::Brace),
        quals.len() + 4 + gen.len() + ret.len() + wh.len() <= usize::MAX,
    ensures
        ({
            let s = quals + seq![kw_fn, name] + gen + seq![params] + ret + wh + seq![body];
            &&& fn_layout(s) is Some
            &&& fn_layout(s)->0.fn_pos == quals.len()
            &&& fn_layout(s)->0.generics_end == quals.len() + 2 + gen.len()
            &&& fn_layout(s)->0.output_end == quals.len() + 3 + gen.len() + ret.len()
            &&& fn_layout(s)->0.body_pos == s.len() - 1
        }),
{
    reveal_strlit("fn");
    reveal_strlit("where");
    let s = quals + seq![kw_fn, name] + gen + seq![params] + ret + wh + seq![body];
    let q = quals.len() as int;
    let g = q + 2 + gen.len();
    let b = s.len() - 1;
    assert(s[q] == kw_fn);
    assert(s[q + 1] == name);
    assert(s[q + 2] == gen[0]);
    assert(s.subrange(q + 2, g) =~= gen);
    crate::grammar::lemma_simple_angle_end(s, q + 2, gen);
    assert(s[g] == params);
    assert(s[b] == body);
    lemma_attrs_end_before_fn(s, 0, q);
    let a = attrs_end(s, 0);
    crate::grammar::lemma_attrs_end_bounds(s, 0);
    assert forall|m: int| a <= m < q implies !is_ident(#[trigger] s[m], "fn"@) by {
        assert(s[m] == quals[m]);
    }
    lemma_find_word_at(s, a, q, "fn"@);
    if ret.len() > 0 {
        assert(s[g + 1] == ret[0]);
        assert(s[g + 2] == ret[1]);
        assert(has_output_at(s, g + 1));
        let w = g + 1 + ret.len();
        assert forall|m: int| g + 3 <= m < w implies !is_ident(#[trigger] s[m], "where"@) by {
            assert(s[m] == ret[m - g - 1]);
        }
        if wh.len() > 0 {
            assert(s[w] == wh[0]);
            lemma_find_word_at(s, g + 3, w, "where"@);
        } else {
            assert(w == b);
            lemma_find_word_at_end(s, g + 3, "where"@);
        }
    } else {
        if wh.len() > 0 {
            assert(s[g + 1] == wh[0]);
        } else {
            assert(g + 1 == b);
        }
        assert(!has_output_at(s, g + 1));
    }
    assert(find_word(s, a, "fn"@) == q);
    assert(output_end(s, g, b) == g + 1 + ret.len());
    assert(fn_layout(s) is Some);
}

/// `sync_cfg(p)` puts the two tokens `# [cfg(p)]` before the synchronous
/// flavour, and `async_cfg(q)` the two tokens `# [cfg(q)]` before the async
/// one.
pub proof fn law_cfg_attributes_are_written(
    args: Seq<Tok>,
    input: Seq<Tok>,
    c: ChecksModel,
    rej: Option<Seq<char>>,
)
    requires
        expansion(args, input, c, rej) is Ok,
        attribute_args_result(args) is Ok,
    ensures
        ({
            let m = attribute_args_result(args)->Ok_0;
            let out = expansion(args, input, c, rej)->Ok_0;
            let attr = |p: Seq<Tok>|
                seq![
                    Tok::Punct { ch: '#', joint: false, span: CALL_SITE },
                    Tok::Group {
                        delimiter: Delimiter::Bracket,
                        stream: seq![
                            Tok::Ident { name: "cfg"@, span: CALL_SITE },
                            Tok::Group { delimiter: Delimiter::Parenthesis, stream: p, span: CALL_SITE },
                        ],
                        span: CALL_SITE,
                    },
                ];
            &&& (m.sync_cfg matches Some(p) ==> out.subrange(0, 2) == attr(p))
            &&& (m.async_cfg matches Some(p) ==> out.subrange(
                sync_end(args, input, c, rej),
                sync_end(args, input, c, rej) + 2,
            ) == attr(p))
            &&& (m.sync_cfg is None ==> sync_end(args, input, c, rej) == converted(
                input,
                item_result(input, rej)->Ok_0,
                false,
                None,
            )->Ok_0.len())
            &&& (m.async_cfg is None ==> async_start(args, input, c, rej) == sync_end(
                args,
                input,
                c,
                rej,
            ))
        }),
{
    law_cfg_arguments_gate_their_flavours(args, input, c, rej);
}


/// The outer attributes `#[..]` of a function item stay in front: its
/// layout puts the end of its attributes after the whole leading run of
/// them, and `async` goes after all of them, among the qualifiers.
pub proof fn law_attributes_stay_in_front_of_async(attrs: Seq<Tok>, rest: Seq<Tok>)
    requires
        outer_attrs(attrs),
        !starts_with_attr(rest),
        fn_layout(attrs + rest) is Some,
        attrs.len() + rest.len() <= usize::MAX,
    ensures
        ({
            let s = attrs + rest;
            let l = fn_layout(s)->0;
            &&& l.attrs_end == attrs.len()
            &&& attrs.len() <= l.fn_pos
            &&& attrs.len() <= async_insert_pos(s, l.attrs_end as int, l.fn_pos as int) <= l.fn_pos
        }),
{
    let s = attrs + rest;
    law_outer_attributes_are_skipped(attrs, rest);
    let l = fn_layout(s)->0;
    lemma_find_word_bounds(s, attrs.len() as int, "fn"@);
    assert(l.attrs_end == attrs.len());
    assert(l.fn_pos == find_word(s, attrs.len() as int, "fn"@));
    law_async_goes_after_const_and_before_unsafe(s, l.attrs_end as int, l.fn_pos as int);
}

/// Where `async_signature` gives generics (generic parameters `P`, a
/// `where` clause `W`, either possibly empty), the async flavour is the
/// function up to its name, with `async` among the qualifiers and the name
/// suffixed `_async`, then `P` in place of the function's own generic
/// parameters, the parameters that `async_signature` gives, its return type
/// (or the function's own), `W` in place of the function's own `where`
/// clause, and the body.
pub proof fn law_async_signature_generics_replace_the_functions(
    s: Seq<Tok>,
    l: FnLayout,
    sig: Option<ArgsModel>,
)
    requires
        fn_layout(s) == Some(l),
        s.len() <= usize::MAX,
        sig matches Some(a) && a.generics is Some,
    ensures
        ({
            let a = sig->0;
            let (p, w) = a.generics->0;
            let f = l.fn_pos as int;
            let g = l.generics_end as int;
            let ip = async_insert_pos(s, l.attrs_end as int, f);
            let inputs = Tok::Group { delimiter: Delimiter::Parenthesis, stream: a.inputs, span: span_of(s[g]) };
            let out = match a.output {
                Some(t) => t,
                None => s.subrange(g + 1, l.output_end as int),
            };
            async_item(s, l, sig) == s.subrange(0, ip) + seq![Tok::Ident { name: "async"@, span: CALL_SITE }]
                + s.subrange(ip, f + 1) + seq![
                Tok::Ident { name: ident_name(s[f + 1]) + "_async"@, span: CALL_SITE },
            ] + p + seq![inputs] + out + w + seq![without_inner_attrs(s[l.body_pos as int])]
        }),
{
}

/// Both flavours drop the inner attributes `#![..]` that start the body of
/// the function and keep the rest of the body: of a body `{ A R }`, where
/// `A` is a run of inner attributes that `R` does not go on with, `{ R }`
/// is kept, with the body's delimiter and span.
pub proof fn law_inner_attributes_of_the_body_are_dropped(
    delimiter: Delimiter,
    attrs: Seq<Tok>,
    rest: Seq<Tok>,
    span: u64,
)
    requires
        inner_attrs(attrs),
        !starts_with_inner_attr(rest),
    ensures
        ({
            let body = Tok::Group { delimiter, stream: attrs + rest, span };
            without_inner_attrs(body) == Tok::Group { delimiter, stream: rest, span }
        }),
{
    law_inner_attributes_are_skipped(attrs, rest);
    let t = attrs + rest;
    assert(t.subrange(attrs.len() as int, t.len() as int) =~= rest);
}

/// A function declared `async`, as in `pub async fn f() {}`, is refused
/// with "an async_generic function should not be declared as async", and
/// a function item without `async` among its qualifiers is accepted with
/// its layout (where `syn` parses it).
pub proof fn law_async_declared_function_is_refused(
    args: Seq<Tok>,
    s: Seq<Tok>,
    c: ChecksModel,
    l: FnLayout,
)
    requires
        fn_layout(s) == Some(l),
        s.len() <= usize::MAX,
    ensures
        (exists|k: int| l.attrs_end <= k < l.fn_pos && is_ident(#[trigger] s[k], "async"@)) ==> {
            &&& item_result(s, None) == Err::<FnLayout, (Seq<char>, u64)>(
                ("an async_generic function should not be declared as async"@, CALL_SITE),
            )
            &&& (expansion_args(args, c) is Ok ==> expansion(args, s, c, None) == Err::<
                Seq<Tok>,
                (Seq<char>, u64),
            >(("an async_generic function should not be declared as async"@, CALL_SITE)))
        },
        (forall|k: int| l.attrs_end <= k < l.fn_pos ==> !is_ident(#[trigger] s[k], "async"@))
            ==> item_result(s, None) == Ok::<FnLayout, (Seq<char>, u64)>(l),
{
    crate::grammar::lemma_attrs_end_bounds(s, 0);
    lemma_find_word_bounds(s, attrs_end(s, 0), "fn"@);
    assert(l.attrs_end == attrs_end(s, 0));
    lemma_find_word_bounds(s, l.attrs_end as int, "async"@);
    let w = find_word(s, l.attrs_end as int, "async"@);
    if exists|k: int| l.attrs_end <= k < l.fn_pos && is_ident(#[trigger] s[k], "async"@) {
        let k = choose|k: int| l.attrs_end <= k < l.fn_pos && is_ident(#[trigger] s[k], "async"@);
        assert(w <= k);
    }
    if forall|k: int| l.attrs_end <= k < l.fn_pos ==> !is_ident(#[trigger] s[k], "async"@) {
        if w < l.fn_pos {
            assert(is_ident(s[w], "async"@));
        }
        assert(w >= l.fn_pos);
    }
}

/// An attribute argument that starts with an identifier other than
/// `async_signature`, `sync_cfg` and `async_cfg` (and no keyword), as in
/// `#[async_generic(foo(x))]`, is refused with "async_generic can only take
/// a async_signature argument", whatever the item; no arguments at all give
/// the expansion nothing to replace and no `cfg` attribute.
pub proof fn law_other_attribute_arguments_are_refused(
    args: Seq<Tok>,
    input: Seq<Tok>,
    c: ChecksModel,
    rej: Option<Seq<char>>,
)
    ensures
        (args.len() > 0 && args[0] is Ident && !is_reserved_ident(args[0]->Ident_name)
            && !is_ident(args[0], "async_signature"@) && !is_ident(args[0], "sync_cfg"@)
            && !is_ident(args[0], "async_cfg"@)) ==> {
            &&& expansion_args(args, c) == Err::<ExpansionArgs, (Seq<char>, u64)>(
                ("async_generic can only take a async_signature argument"@, CALL_SITE),
            )
            &&& expansion(args, input, c, rej) == Err::<Seq<Tok>, (Seq<char>, u64)>(
                ("async_generic can only take a async_signature argument"@, CALL_SITE),
            )
        },
        args.len() == 0 ==> expansion_args(args, c) == Ok::<ExpansionArgs, (Seq<char>, u64)>(
            ExpansionArgs { sig: None, sync_cfg: None, async_cfg: None },
        ),
{
}

/// An item that `syn` does not parse as a function, whatever its tokens,
/// is refused with "async_generic can only be used with functions" (once
/// the attribute's arguments are accepted), and so is an item without the
/// layout of a function.
pub proof fn law_non_functions_are_refused(
    args: Seq<Tok>,
    input: Seq<Tok>,
    c: ChecksModel,
    rej: Option<Seq<char>>,
)
    requires
        rej is Some || fn_layout(input) is None,
    ensures
        item_result(input, rej) == Err::<FnLayout, (Seq<char>, u64)>(
            ("async_generic can only be used with functions"@, CALL_SITE),
        ),
        expansion_args(args, c) is Ok ==> expansion(args, input, c, rej) == Err::<
            Seq<Tok>,
            (Seq<char>, u64),
        >(("async_generic can only be used with functions"@, CALL_SITE)),
{
}

/// `async_signature(I)` alone reads the same as an argument of the list
/// form and as a whole signature: the async flavour gets the parameters
/// `I` (or the error `syn` gives for them), and no `cfg` attribute.
pub proof fn law_lone_async_signature_is_one_signature(name: Tok, params: Tok, c: ChecksModel)
    requires
        is_ident(name, "async_signature"@),
        is_group(params, Delimiter::Parenthesis),
    ensures
        expansion_args(seq![name, params], c) == match args_result_given(seq![name, params], c) {
            Ok(a) => Ok::<ExpansionArgs, (Seq<char>, u64)>(
                ExpansionArgs { sig: Some(a), sync_cfg: None, async_cfg: None },
            ),
            Err(e) => Err(e),
        },
        c.inputs is None ==> args_result_given(seq![name, params], c) == Ok::<ArgsModel, (Seq<char>, u64)>(
            ArgsModel { generics: None, inputs: group_stream(params), output: None },
        ),
{
    reveal_strlit("async_signature");
    reveal_strlit("sync_cfg");
    reveal_strlit("async_cfg");
    crate::arguments::lemma_valid_names_are_no_keywords("async_signature"@);
    let args = seq![name, params];
    let g = crate::arguments::NamedGroupModel {
        name: "async_signature"@,
        span: span_of(name),
        contents: group_stream(params),
    };
    assert(crate::arguments::named_group_at(args, 0) == Ok::<NamedGroupModel, (Seq<char>, u64)>(g));
    assert(group_list(args, 0) == Ok::<Seq<NamedGroupModel>, (Seq<char>, u64)>(seq![g]));
    let gs = seq![g];
    let one = crate::arguments::recognize_one(no_arguments(), g);
    assert(one is Ok);
    assert(one->Ok_0.async_signature == Some(group_stream(params)));
    assert(crate::arguments::recognize_from(one->Ok_0, gs, 1) == one);
    assert(crate::arguments::recognize_from(no_arguments(), gs, 0) == one);
    assert(attribute_args_result(args) == one);
    assert(named_arguments(args));
    let m = attribute_args_result(args)->Ok_0;
    assert(m.async_signature == Some(group_stream(params)));
    assert(m.sync_cfg is None);
    assert(m.async_cfg is None);
    let t = signature_tokens(group_stream(params));
    assert(!crate::args::has_params(t));
    assert(!crate::args::has_params(args));
    assert(!has_output_at(t, 2));
    assert(!has_output_at(args, 2));
    assert(crate::args::where_pos(t) == 2);
    assert(crate::args::where_pos(args) == 2);
    assert(args_result_given(t, c) == args_result_given(args, c));
}

} // verus!
