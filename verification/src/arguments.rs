//! Named arguments of the attribute: `name(tokens), name(tokens), ..`.
//!
//! Each argument is one of `async_signature`, `sync_cfg` and `async_cfg`,
//! followed by its tokens in parentheses; the arguments are separated by
//! commas (a trailing comma is allowed) and each name may appear once.
use vstd::prelude::*;
use crate::error::{error_view, macro_error, MacroError};
use crate::token::{
    is_reserved_ident, is_reserved_ident_name, keyword_error_message, keyword_message,
    copy_stream_range, group_stream, is_group, is_punct, name_is, punct_is, span_id, span_of, toks,
    Delimiter, Tok, TokenTree, CALL_SITE,
};

verus! {

/// The names that an argument may have.
pub open spec fn is_valid_argument(name: Seq<char>) -> bool {
    name == "async_signature"@ || name == "sync_cfg"@ || name == "async_cfg"@
}

/// The message for a name that is none of them.
pub open spec fn invalid_argument_message() -> Seq<char> {
    "invalid argument for async_generic. valid arguments: async_signature, sync_cfg, async_cfg"@
}

/// One argument: its name, the span id of the name, and its tokens.
pub struct NamedParenGroup {
    pub name: String,
    pub span: u64,
    pub contents: Vec<TokenTree>,
}

/// The value of an argument.
pub struct NamedGroupModel {
    pub name: Seq<char>,
    pub span: u64,
    pub contents: Seq<Tok>,
}

impl NamedParenGroup {
    /// The value of this argument.
    pub open spec fn model(self) -> NamedGroupModel {
        NamedGroupModel { name: self.name@, span: self.span, contents: toks(self.contents@) }
    }
}

/// The argument that starts at position `i` of `s`, or the error met.
pub open spec fn named_group_at(s: Seq<Tok>, i: int) -> Result<
    NamedGroupModel,
    (Seq<char>, u64),
> {
    if i < 0 || i >= s.len() {
        Err(("unexpected end of input, expected identifier"@, CALL_SITE))
    } else if !(s[i] is Ident) {
        Err(("expected identifier"@, span_of(s[i])))
    } else if is_reserved_ident(s[i]->Ident_name) {
        Err((keyword_message(s[i]->Ident_name), span_of(s[i])))
    } else if !is_valid_argument(s[i]->Ident_name) {
        Err((invalid_argument_message(), span_of(s[i])))
    } else if i + 1 >= s.len() {
        Err(("unexpected end of input, expected parentheses"@, CALL_SITE))
    } else if !is_group(s[i + 1], Delimiter::Parenthesis) {
        Err(("expected parentheses"@, span_of(s[i + 1])))
    } else {
        Ok(
            NamedGroupModel {
                name: s[i]->Ident_name,
                span: span_of(s[i]),
                contents: group_stream(s[i + 1]),
            },
        )
    }
}

/// The comma-separated arguments from position `i` of `s` on.
pub open spec fn group_list(s: Seq<Tok>, i: int) -> Result<
    Seq<NamedGroupModel>,
    (Seq<char>, u64),
>
    decreases s.len() - i,
{
    if i < 0 || i >= s.len() {
        Ok(Seq::empty())
    } else {
        match named_group_at(s, i) {
            Err(e) => Err(e),
            Ok(g) => if i + 2 >= s.len() {
                Ok(seq![g])
            } else if !is_punct(s[i + 2], ',') {
                Err(("expected `,`"@, span_of(s[i + 2])))
            } else {
                match group_list(s, i + 3) {
                    Err(e) => Err(e),
                    Ok(rest) => Ok(seq![g] + rest),
                }
            },
        }
    }
}

/// The value of the arguments: the tokens given to each name, if any.
pub struct AttributeArgsModel {
    pub async_signature: Option<Seq<Tok>>,
    pub sync_cfg: Option<Seq<Tok>>,
    pub async_cfg: Option<Seq<Tok>>,
}

/// No argument given.
pub open spec fn no_arguments() -> AttributeArgsModel {
    AttributeArgsModel { async_signature: None, sync_cfg: None, async_cfg: None }
}

/// Records argument `g` in `acc`, or the error for a name met twice.
pub open spec fn recognize_one(acc: AttributeArgsModel, g: NamedGroupModel) -> Result<
    AttributeArgsModel,
    (Seq<char>, u64),
> {
    let duplicate = ("duplicate async_generic argument"@, g.span);
    if g.name == "async_signature"@ {
        if acc.async_signature is Some {
            Err(duplicate)
        } else {
            Ok(AttributeArgsModel { async_signature: Some(g.contents), ..acc })
        }
    } else if g.name == "sync_cfg"@ {
        if acc.sync_cfg is Some {
            Err(duplicate)
        } else {
            Ok(AttributeArgsModel { sync_cfg: Some(g.contents), ..acc })
        }
    } else if g.name == "async_cfg"@ {
        if acc.async_cfg is Some {
            Err(duplicate)
        } else {
            Ok(AttributeArgsModel { async_cfg: Some(g.contents), ..acc })
        }
    } else {
        Err(("unrecognized async_generic argument"@, g.span))
    }
}

/// Records the arguments `gs` from position `k` on.
pub open spec fn recognize_from(acc: AttributeArgsModel, gs: Seq<NamedGroupModel>, k: int) -> Result<
    AttributeArgsModel,
    (Seq<char>, u64),
>
    decreases gs.len() - k,
{
    if k < 0 || k >= gs.len() {
        Ok(acc)
    } else {
        match recognize_one(acc, gs[k]) {
            Err(e) => Err(e),
            Ok(next) => recognize_from(next, gs, k + 1),
        }
    }
}

/// What the attribute's arguments `s` parse to.
pub open spec fn attribute_args_result(s: Seq<Tok>) -> Result<AttributeArgsModel, (Seq<char>, u64)> {
    match group_list(s, 0) {
        Err(e) => Err(e),
        Ok(gs) => recognize_from(no_arguments(), gs, 0),
    }
}

/// The tokens recorded in `m` for the argument named `name`.
pub open spec fn field(m: AttributeArgsModel, name: Seq<char>) -> Option<Seq<Tok>> {
    if name == "async_signature"@ {
        m.async_signature
    } else if name == "sync_cfg"@ {
        m.sync_cfg
    } else {
        m.async_cfg
    }
}

/// Every argument of `gs` has a valid name, and no name occurs twice.
pub open spec fn distinct_valid_names(gs: Seq<NamedGroupModel>) -> bool {
    &&& forall|k: int| 0 <= k < gs.len() ==> is_valid_argument(#[trigger] gs[k].name)
    &&& forall|j: int, k: int| 0 <= j < k < gs.len() ==> gs[j].name != gs[k].name
}

/// Recording arguments with distinct valid names from position `k` on sets
/// each of their fields, and leaves the others as they were.
proof fn lemma_recognize_distinct(acc: AttributeArgsModel, gs: Seq<NamedGroupModel>, k: int)
    requires
        0 <= k <= gs.len(),
        distinct_valid_names(gs),
        forall|j: int| k <= j < gs.len() ==> field(acc, #[trigger] gs[j].name) is None,
    ensures
        recognize_from(acc, gs, k) is Ok,
        forall|j: int|
            k <= j < gs.len() ==> field(recognize_from(acc, gs, k)->Ok_0, #[trigger] gs[j].name)
                == Some(gs[j].contents),
        forall|n: Seq<char>|
            is_valid_argument(n) && (forall|j: int| k <= j < gs.len() ==> #[trigger] gs[j].name != n)
                ==> field(recognize_from(acc, gs, k)->Ok_0, n) == field(acc, n),
    decreases gs.len() - k,
{
    reveal_strlit("async_signature");
    reveal_strlit("sync_cfg");
    reveal_strlit("async_cfg");
    if k < gs.len() {
        let g = gs[k];
        assert(is_valid_argument(g.name));
        let next = recognize_one(acc, g)->Ok_0;
        assert(recognize_one(acc, g) is Ok);
        assert(field(next, g.name) == Some(g.contents));
        assert forall|n: Seq<char>| is_valid_argument(n) && n != g.name implies field(next, n) == field(
            acc,
            n,
        ) by {}
        assert forall|j: int| k + 1 <= j < gs.len() implies field(next, #[trigger] gs[j].name) is None by {
            assert(gs[k].name != gs[j].name);
            assert(is_valid_argument(gs[j].name));
        }
        lemma_recognize_distinct(next, gs, k + 1);
        let r = recognize_from(acc, gs, k)->Ok_0;
        assert(recognize_from(acc, gs, k) == recognize_from(next, gs, k + 1));
        assert forall|j: int| k <= j < gs.len() implies field(r, #[trigger] gs[j].name) == Some(
            gs[j].contents,
        ) by {
            if j == k {
                assert forall|i: int| k + 1 <= i < gs.len() implies #[trigger] gs[i].name != g.name by {
                }
            }
        }
        assert forall|n: Seq<char>|
            is_valid_argument(n) && (forall|j: int| k <= j < gs.len() ==> #[trigger] gs[j].name != n)
            implies field(r, n) == field(acc, n) by {
            assert(gs[k].name != n);
        }
    }
}

/// Arguments with distinct valid names are all recorded, each under its
/// name, whatever their order: the result holds the tokens of each given
/// name and nothing for the others.
pub proof fn law_distinct_arguments_in_any_order(gs: Seq<NamedGroupModel>)
    requires
        distinct_valid_names(gs),
    ensures
        recognize_from(no_arguments(), gs, 0) is Ok,
        forall|j: int|
            0 <= j < gs.len() ==> field(recognize_from(no_arguments(), gs, 0)->Ok_0, #[trigger] gs[j].name)
                == Some(gs[j].contents),
        forall|n: Seq<char>|
            is_valid_argument(n) && (forall|j: int| 0 <= j < gs.len() ==> #[trigger] gs[j].name != n)
                ==> field(recognize_from(no_arguments(), gs, 0)->Ok_0, n) is None,
{
    lemma_recognize_distinct(no_arguments(), gs, 0);
}

/// The order of arguments with distinct valid names does not matter: any
/// reordering gives the same result.
pub proof fn law_argument_order_does_not_matter(gs1: Seq<NamedGroupModel>, gs2: Seq<NamedGroupModel>)
    requires
        distinct_valid_names(gs1),
        gs1.to_multiset() == gs2.to_multiset(),
    ensures
        recognize_from(no_arguments(), gs1, 0) == recognize_from(no_arguments(), gs2, 0),
{
    reveal_strlit("async_signature");
    reveal_strlit("sync_cfg");
    reveal_strlit("async_cfg");
    gs1.to_multiset_ensures();
    gs2.to_multiset_ensures();
    assert forall|x: NamedGroupModel| gs1.contains(x) <==> gs2.contains(x) by {
        assert(gs1.contains(x) <==> gs1.to_multiset().count(x) > 0);
        assert(gs2.contains(x) <==> gs2.to_multiset().count(x) > 0);
    }
    assert(distinct_valid_names(gs2)) by {
        assert forall|k: int| 0 <= k < gs2.len() implies is_valid_argument(#[trigger] gs2[k].name) by {
            assert(gs2.contains(gs2[k]));
            let i = choose|i: int| 0 <= i < gs1.len() && gs1[i] == gs2[k];
        }
        assert forall|j: int, k: int| 0 <= j < k < gs2.len() implies gs2[j].name != gs2[k].name by {
            if gs2[j].name == gs2[k].name {
                assert(gs2.contains(gs2[j]));
                assert(gs2.contains(gs2[k]));
                let a = choose|i: int| 0 <= i < gs1.len() && gs1[i] == gs2[j];
                let b = choose|i: int| 0 <= i < gs1.len() && gs1[i] == gs2[k];
                assert(gs1[a].name == gs1[b].name);
                if a == b {
                    assert(gs2[j] == gs2[k]);
                    assert(gs2.to_multiset().count(gs2[j]) >= 2) by {
                        broadcast use vstd::multiset::group_multiset_axioms;
                        assert(gs2.remove(k).contains(gs2[j])) by {
                            assert(gs2.remove(k)[j] == gs2[j]);
                        }
                        gs2.remove(k).to_multiset_ensures();
                        assert(gs2.remove(k).to_multiset().count(gs2[j]) > 0);
                        assert(gs2.remove(k).to_multiset() =~= gs2.to_multiset().remove(gs2[k]));
                    }
                    assert(gs1.to_multiset().count(gs1[a]) == 1) by {
                        assert(gs1.no_duplicates()) by {
                            assert forall|p: int, q: int|
                                0 <= p < gs1.len() && 0 <= q < gs1.len() && p != q
                                implies gs1[p] != gs1[q] by {
                                if p < q {
                                    assert(gs1[p].name != gs1[q].name);
                                } else {
                                    assert(gs1[q].name != gs1[p].name);
                                }
                            }
                        }
                        gs1.lemma_multiset_has_no_duplicates();
                    }
                } else if a < b {
                    assert(gs1[a].name != gs1[b].name);
                } else {
                    assert(gs1[b].name != gs1[a].name);
                }
            }
        }
    }
    law_distinct_arguments_in_any_order(gs1);
    law_distinct_arguments_in_any_order(gs2);
    let r1 = recognize_from(no_arguments(), gs1, 0)->Ok_0;
    let r2 = recognize_from(no_arguments(), gs2, 0)->Ok_0;
    assert forall|n: Seq<char>| is_valid_argument(n) implies field(r1, n) == field(r2, n) by {
        if exists|j: int| 0 <= j < gs1.len() && gs1[j].name == n {
            let j = choose|j: int| 0 <= j < gs1.len() && gs1[j].name == n;
            assert(gs1.contains(gs1[j]));
            let i = choose|i: int| 0 <= i < gs2.len() && gs2[i] == gs1[j];
            assert(field(r2, gs2[i].name) == Some(gs2[i].contents));
        } else if exists|j: int| 0 <= j < gs2.len() && gs2[j].name == n {
            let j = choose|j: int| 0 <= j < gs2.len() && gs2[j].name == n;
            assert(gs2.contains(gs2[j]));
            let i = choose|i: int| 0 <= i < gs1.len() && gs1[i] == gs2[j];
            assert(gs1[i].name == n);
        }
    }
    assert(is_valid_argument("async_signature"@));
    assert(is_valid_argument("sync_cfg"@));
    assert(is_valid_argument("async_cfg"@));
    assert(field(r1, "async_signature"@) == field(r2, "async_signature"@));
    assert(field(r1, "sync_cfg"@) == field(r2, "sync_cfg"@));
    assert(field(r1, "async_cfg"@) == field(r2, "async_cfg"@));
    assert("sync_cfg"@.len() != "async_signature"@.len());
    assert("async_cfg"@.len() != "async_signature"@.len());
    assert("async_cfg"@.len() != "sync_cfg"@.len());
    assert(r1.async_signature == r2.async_signature);
    assert(r1.sync_cfg == r2.sync_cfg);
    assert(r1.async_cfg == r2.async_cfg);
}

/// The tokens `name(contents),` that write the argument `g`.
pub open spec fn argument_tokens(g: NamedGroupModel) -> Seq<Tok> {
    seq![
        Tok::Ident { name: g.name, span: g.span },
        Tok::Group { delimiter: Delimiter::Parenthesis, stream: g.contents, span: CALL_SITE },
        Tok::Punct { ch: ',', joint: false, span: CALL_SITE },
    ]
}

/// The tokens that write the arguments `gs`, each followed by a comma.
pub open spec fn arguments_tokens(gs: Seq<NamedGroupModel>) -> Seq<Tok>
    decreases gs.len(),
{
    if gs.len() == 0 {
        Seq::empty()
    } else {
        argument_tokens(gs[0]) + arguments_tokens(gs.drop_first())
    }
}

/// No valid argument name is a keyword.
pub proof fn lemma_valid_names_are_no_keywords(n: Seq<char>)
    requires
        is_valid_argument(n),
    ensures
        !is_reserved_ident(n),
{
    reveal_strlit("async_signature");
    reveal_strlit("sync_cfg");
    reveal_strlit("async_cfg");
    reveal_strlit("_");
    reveal_strlit("Self");
    reveal_strlit("abstract");
    reveal_strlit("as");
    reveal_strlit("async");
    reveal_strlit("await");
    reveal_strlit("become");
    reveal_strlit("box");
    reveal_strlit("break");
    reveal_strlit("const");
    reveal_strlit("continue");
    reveal_strlit("crate");
    reveal_strlit("do");
    reveal_strlit("dyn");
    reveal_strlit("else");
    reveal_strlit("enum");
    reveal_strlit("extern");
    reveal_strlit("false");
    reveal_strlit("final");
    reveal_strlit("fn");
    reveal_strlit("for");
    reveal_strlit("if");
    reveal_strlit("impl");
    reveal_strlit("in");
    reveal_strlit("let");
    reveal_strlit("loop");
    reveal_strlit("macro");
    reveal_strlit("match");
    reveal_strlit("mod");
    reveal_strlit("move");
    reveal_strlit("mut");
    reveal_strlit("override");
    reveal_strlit("priv");
    reveal_strlit("pub");
    reveal_strlit("ref");
    reveal_strlit("return");
    reveal_strlit("self");
    reveal_strlit("static");
    reveal_strlit("struct");
    reveal_strlit("super");
    reveal_strlit("trait");
    reveal_strlit("true");
    reveal_strlit("try");
    reveal_strlit("type");
    reveal_strlit("typeof");
    reveal_strlit("unsafe");
    reveal_strlit("unsized");
    reveal_strlit("use");
    reveal_strlit("virtual");
    reveal_strlit("where");
    reveal_strlit("while");
    reveal_strlit("yield");
    assert("async_signature"@.len() != "Self"@.len());
    assert("async_signature"@.len() != "abstract"@.len());
    assert("async_signature"@.len() != "as"@.len());
    assert("async_signature"@.len() != "async"@.len());
    assert("async_signature"@.len() != "await"@.len());
    assert("async_signature"@.len() != "become"@.len());
    assert("async_signature"@.len() != "box"@.len());
    assert("async_signature"@.len() != "break"@.len());
    assert("async_signature"@.len() != "const"@.len());
    assert("async_signature"@.len() != "continue"@.len());
    assert("async_signature"@.len() != "crate"@.len());
    assert("async_signature"@.len() != "do"@.len());
    assert("async_signature"@.len() != "dyn"@.len());
    assert("async_signature"@.len() != "else"@.len());
    assert("async_signature"@.len() != "enum"@.len());
    assert("async_signature"@.len() != "extern"@.len());
    assert("async_signature"@.len() != "false"@.len());
    assert("async_signature"@.len() != "final"@.len());
    assert("async_signature"@.len() != "fn"@.len());
    assert("async_signature"@.len() != "for"@.len());
    assert("async_signature"@.len() != "if"@.len());
    assert("async_signature"@.len() != "impl"@.len());
    assert("async_signature"@.len() != "in"@.len());
    assert("async_signature"@.len() != "let"@.len());
    assert("async_signature"@.len() != "loop"@.len());
    assert("async_signature"@.len() != "macro"@.len());
    assert("async_signature"@.len() != "match"@.len());
    assert("async_signature"@.len() != "mod"@.len());
    assert("async_signature"@.len() != "move"@.len());
    assert("async_signature"@.len() != "mut"@.len());
    assert("async_signature"@.len() != "override"@.len());
    assert("async_signature"@.len() != "priv"@.len());
    assert("async_signature"@.len() != "pub"@.len());
    assert("async_signature"@.len() != "ref"@.len());
    assert("async_signature"@.len() != "return"@.len());
    assert("async_signature"@.len() != "self"@.len());
    assert("async_signature"@.len() != "static"@.len());
    assert("async_signature"@.len() != "struct"@.len());
    assert("async_signature"@.len() != "super"@.len());
    assert("async_signature"@.len() != "trait"@.len());
    assert("async_signature"@.len() != "true"@.len());
    assert("async_signature"@.len() != "try"@.len());
    assert("async_signature"@.len() != "type"@.len());
    assert("async_signature"@.len() != "typeof"@.len());
    assert("async_signature"@.len() != "unsafe"@.len());
    assert("async_signature"@.len() != "unsized"@.len());
    assert("async_signature"@.len() != "use"@.len());
    assert("async_signature"@.len() != "virtual"@.len());
    assert("async_signature"@.len() != "where"@.len());
    assert("async_signature"@.len() != "while"@.len());
    assert("async_signature"@.len() != "yield"@.len());
    assert("async_signature"@.len() != "_"@.len());
    assert("sync_cfg"@.len() != "Self"@.len());
    assert("sync_cfg"@[0] != "abstract"@[0]);
    assert("sync_cfg"@.len() != "as"@.len());
    assert("sync_cfg"@.len() != "async"@.len());
    assert("sync_cfg"@.len() != "await"@.len());
    assert("sync_cfg"@.len() != "become"@.len());
    assert("sync_cfg"@.len() != "box"@.len());
    assert("sync_cfg"@.len() != "break"@.len());
    assert("sync_cfg"@.len() != "const"@.len());
    assert("sync_cfg"@[0] != "continue"@[0]);
    assert("sync_cfg"@.len() != "crate"@.len());
    assert("sync_cfg"@.len() != "do"@.len());
    assert("sync_cfg"@.len() != "dyn"@.len());
    assert("sync_cfg"@.len() != "else"@.len());
    assert("sync_cfg"@.len() != "enum"@.len());
    assert("sync_cfg"@.len() != "extern"@.len());
    assert("sync_cfg"@.len() != "false"@.len());
    assert("sync_cfg"@.len() != "final"@.len());
    assert("sync_cfg"@.len() != "fn"@.len());
    assert("sync_cfg"@.len() != "for"@.len());
    assert("sync_cfg"@.len() != "if"@.len());
    assert("sync_cfg"@.len() != "impl"@.len());
    assert("sync_cfg"@.len() != "in"@.len());
    assert("sync_cfg"@.len() != "let"@.len());
    assert("sync_cfg"@.len() != "loop"@.len());
    assert("sync_cfg"@.len() != "macro"@.len());
    assert("sync_cfg"@.len() != "match"@.len());
    assert("sync_cfg"@.len() != "mod"@.len());
    assert("sync_cfg"@.len() != "move"@.len());
    assert("sync_cfg"@.len() != "mut"@.len());
    assert("sync_cfg"@[0] != "override"@[0]);
    assert("sync_cfg"@.len() != "priv"@.len());
    assert("sync_cfg"@.len() != "pub"@.len());
    assert("sync_cfg"@.len() != "ref"@.len());
    assert("sync_cfg"@.len() != "return"@.len());
    assert("sync_cfg"@.len() != "self"@.len());
    assert("sync_cfg"@.len() != "static"@.len());
    assert("sync_cfg"@.len() != "struct"@.len());
    assert("sync_cfg"@.len() != "super"@.len());
    assert("sync_cfg"@.len() != "trait"@.len());
    assert("sync_cfg"@.len() != "true"@.len());
    assert("sync_cfg"@.len() != "try"@.len());
    assert("sync_cfg"@.len() != "type"@.len());
    assert("sync_cfg"@.len() != "typeof"@.len());
    assert("sync_cfg"@.len() != "unsafe"@.len());
    assert("sync_cfg"@.len() != "unsized"@.len());
    assert("sync_cfg"@.len() != "use"@.len());
    assert("sync_cfg"@.len() != "virtual"@.len());
    assert("sync_cfg"@.len() != "where"@.len());
    assert("sync_cfg"@.len() != "while"@.len());
    assert("sync_cfg"@.len() != "yield"@.len());
    assert("sync_cfg"@.len() != "_"@.len());
    assert("async_cfg"@.len() != "Self"@.len());
    assert("async_cfg"@.len() != "abstract"@.len());
    assert("async_cfg"@.len() != "as"@.len());
    assert("async_cfg"@.len() != "async"@.len());
    assert("async_cfg"@.len() != "await"@.len());
    assert("async_cfg"@.len() != "become"@.len());
    assert("async_cfg"@.len() != "box"@.len());
    assert("async_cfg"@.len() != "break"@.len());
    assert("async_cfg"@.len() != "const"@.len());
    assert("async_cfg"@.len() != "continue"@.len());
    assert("async_cfg"@.len() != "crate"@.len());
    assert("async_cfg"@.len() != "do"@.len());
    assert("async_cfg"@.len() != "dyn"@.len());
    assert("async_cfg"@.len() != "else"@.len());
    assert("async_cfg"@.len() != "enum"@.len());
    assert("async_cfg"@.len() != "extern"@.len());
    assert("async_cfg"@.len() != "false"@.len());
    assert("async_cfg"@.len() != "final"@.len());
    assert("async_cfg"@.len() != "fn"@.len());
    assert("async_cfg"@.len() != "for"@.len());
    assert("async_cfg"@.len() != "if"@.len());
    assert("async_cfg"@.len() != "impl"@.len());
    assert("async_cfg"@.len() != "in"@.len());
    assert("async_cfg"@.len() != "let"@.len());
    assert("async_cfg"@.len() != "loop"@.len());
    assert("async_cfg"@.len() != "macro"@.len());
    assert("async_cfg"@.len() != "match"@.len());
    assert("async_cfg"@.len() != "mod"@.len());
    assert("async_cfg"@.len() != "move"@.len());
    assert("async_cfg"@.len() != "mut"@.len());
    assert("async_cfg"@.len() != "override"@.len());
    assert("async_cfg"@.len() != "priv"@.len());
    assert("async_cfg"@.len() != "pub"@.len());
    assert("async_cfg"@.len() != "ref"@.len());
    assert("async_cfg"@.len() != "return"@.len());
    assert("async_cfg"@.len() != "self"@.len());
    assert("async_cfg"@.len() != "static"@.len());
    assert("async_cfg"@.len() != "struct"@.len());
    assert("async_cfg"@.len() != "super"@.len());
    assert("async_cfg"@.len() != "trait"@.len());
    assert("async_cfg"@.len() != "true"@.len());
    assert("async_cfg"@.len() != "try"@.len());
    assert("async_cfg"@.len() != "type"@.len());
    assert("async_cfg"@.len() != "typeof"@.len());
    assert("async_cfg"@.len() != "unsafe"@.len());
    assert("async_cfg"@.len() != "unsized"@.len());
    assert("async_cfg"@.len() != "use"@.len());
    assert("async_cfg"@.len() != "virtual"@.len());
    assert("async_cfg"@.len() != "where"@.len());
    assert("async_cfg"@.len() != "while"@.len());
    assert("async_cfg"@.len() != "yield"@.len());
    assert("async_cfg"@.len() != "_"@.len());
}

/// The arguments from position `k` of `p + t` on are those of `t` from
/// position `k - p.len()` on.
proof fn lemma_group_list_shift(p: Seq<Tok>, t: Seq<Tok>, k: int)
    requires
        p.len() <= k,
    ensures
        group_list(p + t, k) == group_list(t, k - p.len()),
    decreases (p + t).len() - k,
{
    let s = p + t;
    let j = k - p.len();
    if k < s.len() {
        assert(named_group_at(s, k) == named_group_at(t, j));
        if k + 2 < s.len() {
            assert(s[k + 2] == t[j + 2]);
            lemma_group_list_shift(p, t, k + 3);
        }
    }
}

/// The tokens that write arguments with valid names parse back to them.
proof fn lemma_arguments_tokens_parse(gs: Seq<NamedGroupModel>)
    requires
        forall|k: int| 0 <= k < gs.len() ==> is_valid_argument(#[trigger] gs[k].name),
    ensures
        group_list(arguments_tokens(gs), 0) == Ok::<Seq<NamedGroupModel>, (Seq<char>, u64)>(gs),
    decreases gs.len(),
{
    if gs.len() == 0 {
        assert(gs =~= Seq::<NamedGroupModel>::empty());
    } else {
        let g = gs[0];
        let rest = gs.drop_first();
        assert forall|k: int| 0 <= k < rest.len() implies is_valid_argument(#[trigger] rest[k].name) by {
            assert(rest[k] == gs[k + 1]);
        }
        lemma_arguments_tokens_parse(rest);
        lemma_valid_names_are_no_keywords(g.name);
        let a = argument_tokens(g);
        let t = arguments_tokens(rest);
        let s = a + t;
        assert(arguments_tokens(gs) == s);
        assert(s[0] == a[0]);
        assert(s[1] == a[1]);
        assert(s[2] == a[2]);
        assert(named_group_at(s, 0) == Ok::<NamedGroupModel, (Seq<char>, u64)>(g));
        assert(is_punct(s[2], ','));
        lemma_group_list_shift(a, t, 3);
        assert(group_list(s, 3) == Ok::<Seq<NamedGroupModel>, (Seq<char>, u64)>(rest));
        assert(seq![g] + rest =~= gs);
    }
}

/// Arguments with distinct valid names, written out in any order, parse to
/// the same result: each name holds its tokens.
pub proof fn law_written_arguments_in_any_order(gs1: Seq<NamedGroupModel>, gs2: Seq<NamedGroupModel>)
    requires
        distinct_valid_names(gs1),
        gs1.to_multiset() == gs2.to_multiset(),
    ensures
        attribute_args_result(arguments_tokens(gs1)) is Ok,
        attribute_args_result(arguments_tokens(gs1)) == attribute_args_result(arguments_tokens(gs2)),
        forall|j: int|
            0 <= j < gs1.len() ==> field(
                attribute_args_result(arguments_tokens(gs1))->Ok_0,
                #[trigger] gs1[j].name,
            ) == Some(gs1[j].contents),
{
    law_argument_order_does_not_matter(gs1, gs2);
    law_distinct_arguments_in_any_order(gs1);
    lemma_arguments_tokens_parse(gs1);
    gs1.to_multiset_ensures();
    gs2.to_multiset_ensures();
    assert forall|k: int| 0 <= k < gs2.len() implies is_valid_argument(#[trigger] gs2[k].name) by {
        assert(gs2.contains(gs2[k]));
        assert(gs2.to_multiset().count(gs2[k]) > 0);
        assert(gs1.contains(gs2[k]));
        let i = choose|i: int| 0 <= i < gs1.len() && gs1[i] == gs2[k];
    }
    lemma_arguments_tokens_parse(gs2);
}

/// An argument whose name is none of `async_signature`, `sync_cfg` and
/// `async_cfg` (nor a keyword) is refused at its name, with the message
/// that lists the valid ones, whatever follows it.
pub proof fn law_unknown_argument_is_refused(name: Tok, rest: Seq<Tok>)
    requires
        name is Ident,
        !is_reserved_ident(name->Ident_name),
        !is_valid_argument(name->Ident_name),
    ensures
        attribute_args_result(seq![name] + rest) == Err::<AttributeArgsModel, (Seq<char>, u64)>(
            (invalid_argument_message(), span_of(name)),
        ),
{
    let s = seq![name] + rest;
    assert(s[0] == name);
    assert(named_group_at(s, 0) == Err::<NamedGroupModel, (Seq<char>, u64)>(
        (invalid_argument_message(), span_of(name)),
    ));
}

/// An argument given twice, as in `sync_cfg(a), sync_cfg(b)`, is refused
/// with "duplicate async_generic argument" at the name of the second one.
pub proof fn law_argument_given_twice_is_refused(n1: Tok, g1: Tok, comma: Tok, n2: Tok, g2: Tok)
    requires
        n1 is Ident,
        n2 is Ident,
        n1->Ident_name == n2->Ident_name,
        is_valid_argument(n1->Ident_name),
        is_group(g1, Delimiter::Parenthesis),
        is_punct(comma, ','),
        is_group(g2, Delimiter::Parenthesis),
    ensures
        attribute_args_result(seq![n1, g1, comma, n2, g2]) == Err::<
            AttributeArgsModel,
            (Seq<char>, u64),
        >(("duplicate async_generic argument"@, span_of(n2))),
{
    reveal_strlit("async_signature");
    reveal_strlit("sync_cfg");
    reveal_strlit("async_cfg");
    lemma_valid_names_are_no_keywords(n1->Ident_name);
    let s = seq![n1, g1, comma, n2, g2];
    let a = NamedGroupModel { name: n1->Ident_name, span: span_of(n1), contents: group_stream(g1) };
    let b = NamedGroupModel { name: n2->Ident_name, span: span_of(n2), contents: group_stream(g2) };
    assert(named_group_at(s, 0) == Ok::<NamedGroupModel, (Seq<char>, u64)>(a));
    assert(named_group_at(s, 3) == Ok::<NamedGroupModel, (Seq<char>, u64)>(b));
    assert(group_list(s, 3) == Ok::<Seq<NamedGroupModel>, (Seq<char>, u64)>(seq![b]));
    assert(group_list(s, 0) == Ok::<Seq<NamedGroupModel>, (Seq<char>, u64)>(seq![a] + seq![b]));
    let gs = seq![a] + seq![b];
    assert(gs[0] == a);
    assert(gs[1] == b);
    let m = recognize_one(no_arguments(), a)->Ok_0;
    assert(recognize_one(no_arguments(), a) is Ok);
    assert(recognize_one(m, b) == Err::<AttributeArgsModel, (Seq<char>, u64)>(
        ("duplicate async_generic argument"@, span_of(n2)),
    ));
    assert(recognize_from(m, gs, 1) == recognize_one(m, b));
    assert(recognize_from(no_arguments(), gs, 0) == recognize_from(m, gs, 1));
}

/// Arguments are separated by commas: after an argument, a token that is
/// not `,` is refused with "expected `,`" at that token, and a trailing
/// comma is accepted, as in `sync_cfg(p),`.
pub proof fn law_arguments_are_separated_by_commas(n: Tok, g: Tok, x: Tok, rest: Seq<Tok>)
    requires
        n is Ident,
        is_valid_argument(n->Ident_name),
        is_group(g, Delimiter::Parenthesis),
    ensures
        !is_punct(x, ',') ==> attribute_args_result(seq![n, g, x] + rest) == Err::<
            AttributeArgsModel,
            (Seq<char>, u64),
        >(("expected `,`"@, span_of(x))),
        is_punct(x, ',') ==> attribute_args_result(seq![n, g, x]) == recognize_from(
            no_arguments(),
            seq![NamedGroupModel { name: n->Ident_name, span: span_of(n), contents: group_stream(g) }],
            0,
        ),
        is_punct(x, ',') ==> attribute_args_result(seq![n, g, x]) is Ok,
{
    reveal_strlit("async_signature");
    reveal_strlit("sync_cfg");
    reveal_strlit("async_cfg");
    lemma_valid_names_are_no_keywords(n->Ident_name);
    let m = NamedGroupModel { name: n->Ident_name, span: span_of(n), contents: group_stream(g) };
    let s = seq![n, g, x] + rest;
    assert(s[0] == n);
    assert(s[1] == g);
    assert(s[2] == x);
    assert(named_group_at(s, 0) == Ok::<NamedGroupModel, (Seq<char>, u64)>(m));
    let t = seq![n, g, x];
    assert(named_group_at(t, 0) == Ok::<NamedGroupModel, (Seq<char>, u64)>(m));
    if is_punct(x, ',') {
        assert(group_list(t, 3) == Ok::<Seq<NamedGroupModel>, (Seq<char>, u64)>(Seq::empty()));
        assert(group_list(t, 0) == Ok::<Seq<NamedGroupModel>, (Seq<char>, u64)>(seq![m] + Seq::empty()));
        assert(seq![m] + Seq::<NamedGroupModel>::empty() =~= seq![m]);
        let gs = seq![m];
        assert(distinct_valid_names(gs));
        law_distinct_arguments_in_any_order(gs);
    }
}

/// The parsed arguments of the attribute.
pub struct AsyncGenericAttributeArgs {
    pub async_signature: Option<Vec<TokenTree>>,
    pub sync_cfg: Option<Vec<TokenTree>>,
    pub async_cfg: Option<Vec<TokenTree>>,
}

/// The value of optional tokens.
pub open spec fn opt_toks(o: Option<Vec<TokenTree>>) -> Option<Seq<Tok>> {
    match o {
        Some(v) => Some(toks(v@)),
        None => None,
    }
}

impl AsyncGenericAttributeArgs {
    /// The value of these arguments.
    pub open spec fn model(self) -> AttributeArgsModel {
        AttributeArgsModel {
            async_signature: opt_toks(self.async_signature),
            sync_cfg: opt_toks(self.sync_cfg),
            async_cfg: opt_toks(self.async_cfg),
        }
    }

    /// Records the tokens of the argument named `name`; a name met twice is
    /// an error at `span`, and leaves the arguments as they were.
    fn recognize(&mut self, group: NamedParenGroup) -> (r: Result<(), MacroError>)
        ensures
            match r {
                Ok(()) => recognize_one(old(self).model(), group.model()) == Ok::<
                    AttributeArgsModel,
                    (Seq<char>, u64),
                >(final(self).model()),
                Err(e) => recognize_one(old(self).model(), group.model()) == Err::<
                    AttributeArgsModel,
                    (Seq<char>, u64),
                >(error_view(e)) && *final(self) == *old(self),
            },
    {
        let NamedParenGroup { name, span, contents } = group;
        if name_is(&name, "async_signature") {
            if self.async_signature.is_some() {
                return Err(macro_error("duplicate async_generic argument", span));
            }
            self.async_signature = Some(contents);
        } else if name_is(&name, "sync_cfg") {
            if self.sync_cfg.is_some() {
                return Err(macro_error("duplicate async_generic argument", span));
            }
            self.sync_cfg = Some(contents);
        } else if name_is(&name, "async_cfg") {
            if self.async_cfg.is_some() {
                return Err(macro_error("duplicate async_generic argument", span));
            }
            self.async_cfg = Some(contents);
        } else {
            return Err(macro_error("unrecognized async_generic argument", span));
        }
        Ok(())
    }

    /// Parses the arguments of the attribute.
    pub fn parse(input: &Vec<TokenTree>) -> (r: Result<Self, MacroError>)
        ensures
            match r {
                Ok(a) => attribute_args_result(toks(input@)) == Ok::<
                    AttributeArgsModel,
                    (Seq<char>, u64),
                >(a.model()),
                Err(e) => attribute_args_result(toks(input@)) == Err::<
                    AttributeArgsModel,
                    (Seq<char>, u64),
                >(error_view(e)),
            },
    {
        let groups = match parse_groups(input) {
            Ok(gs) => gs,
            Err(e) => {
                return Err(e);
            },
        };
        let ghost gs = groups_model(groups@);
        let mut args = AsyncGenericAttributeArgs {
            async_signature: None,
            sync_cfg: None,
            async_cfg: None,
        };
        let mut groups = groups;
        let ghost n = gs.len();
        let ghost mut i: int = 0;
        while groups.len() > 0
            invariant
                0 <= i <= n,
                n == gs.len(),
                groups_model(groups@) == gs.subrange(i, n as int),
                recognize_from(args.model(), gs, i) == recognize_from(no_arguments(), gs, 0),
                attribute_args_result(toks(input@)) == recognize_from(no_arguments(), gs, 0),
            decreases groups.len(),
        {
            let ghost before = groups@;
            let g = groups.remove(0);
            proof {
                assert(groups_model(before).len() == before.len());
                assert(groups_model(before)[0] == before[0].model());
                assert(g.model() == gs[i]);
                assert(groups@ =~= before.subrange(1, before.len() as int));
                assert forall|k: int| 0 <= k < groups@.len() implies groups_model(groups@)[k]
                    == gs.subrange(i + 1, n as int)[k] by {
                    assert(groups_model(groups@)[k] == groups@[k].model());
                    assert(groups@[k] == before[k + 1]);
                    assert(groups_model(before)[k + 1] == before[k + 1].model());
                }
                assert(groups_model(groups@) =~= gs.subrange(i + 1, n as int));
            }
            let ghost acc = args.model();
            match args.recognize(g) {
                Ok(()) => {},
                Err(e) => {
                    proof {
                        assert(recognize_from(acc, gs, i) == Err::<
                            AttributeArgsModel,
                            (Seq<char>, u64),
                        >(error_view(e)));
                    }
                    return Err(e);
                },
            }
            proof {
                i = i + 1;
            }
        }
        proof {
            assert(gs.subrange(i, n as int).len() == 0);
        }
        Ok(args)
    }
}

/// The values of a sequence of arguments.
pub open spec fn groups_model(gs: Seq<NamedParenGroup>) -> Seq<NamedGroupModel> {
    gs.map_values(|g: NamedParenGroup| g.model())
}

/// Parses the argument that starts at position `i` of `v`.
fn parse_named_paren_group(v: &Vec<TokenTree>, i: usize) -> (r: Result<NamedParenGroup, MacroError>)
    requires
        i < v.len(),
    ensures
        match r {
            Ok(g) => named_group_at(toks(v@), i as int) == Ok::<
                NamedGroupModel,
                (Seq<char>, u64),
            >(g.model()),
            Err(e) => named_group_at(toks(v@), i as int) == Err::<
                NamedGroupModel,
                (Seq<char>, u64),
            >(error_view(e)),
        },
{
    let name = match &v[i] {
        TokenTree::Ident { name, .. } => name.clone(),
        _ => {
            return Err(macro_error("expected identifier", span_id(&v[i])));
        },
    };
    let span = span_id(&v[i]);
    if is_reserved_ident_name(&name) {
        return Err(MacroError { message: keyword_error_message(&name), span });
    }
    if !(name_is(&name, "async_signature") || name_is(&name, "sync_cfg") || name_is(
        &name,
        "async_cfg",
    )) {
        return Err(
            macro_error(
                "invalid argument for async_generic. valid arguments: async_signature, sync_cfg, async_cfg",
                span,
            ),
        );
    }
    if i + 1 >= v.len() {
        return Err(macro_error("unexpected end of input, expected parentheses", CALL_SITE));
    }
    match &v[i + 1] {
        TokenTree::Group { delimiter: Delimiter::Parenthesis, stream, .. } => {
            let contents = copy_stream_range(stream, 0, stream.len());
            proof {
                assert(toks(stream@).subrange(0, stream@.len() as int) =~= toks(stream@));
            }
            Ok(NamedParenGroup { name, span, contents })
        },
        _ => Err(macro_error("expected parentheses", span_id(&v[i + 1]))),
    }
}

/// Parses the comma-separated arguments of `v`.
fn parse_groups(v: &Vec<TokenTree>) -> (r: Result<
    Vec<NamedParenGroup>,
    MacroError,
>)
    ensures
        match r {
            Ok(gs) => group_list(toks(v@), 0) == Ok::<
                Seq<NamedGroupModel>,
                (Seq<char>, u64),
            >(groups_model(gs@)),
            Err(e) => group_list(toks(v@), 0) == Err::<
                Seq<NamedGroupModel>,
                (Seq<char>, u64),
            >(error_view(e)),
        },
{
    let ghost s = toks(v@);
    let mut gs: Vec<NamedParenGroup> = Vec::new();
    let mut i: usize = 0;
    loop
        invariant
            s == toks(v@),
            i <= v.len(),
            group_list(s, 0) == match group_list(s, i as int) {
                Ok(rest) => Ok(groups_model(gs@) + rest),
                Err(e) => Err::<Seq<NamedGroupModel>, (Seq<char>, u64)>(e),
            },
        decreases v.len() - i,
    {
        if i >= v.len() {
            proof {
                assert(groups_model(gs@) + Seq::<NamedGroupModel>::empty() =~= groups_model(gs@));
            }
            return Ok(gs);
        }
        let g = match parse_named_paren_group(v, i) {
            Ok(g) => g,
            Err(e) => {
                return Err(e);
            },
        };
        let ghost gm = g.model();
        let ghost prev = gs@;
        gs.push(g);
        proof {
            assert(groups_model(gs@) =~= groups_model(prev).push(gm));
        }
        if v.len() - i <= 2 {
            proof {
                assert(groups_model(prev) + seq![gm] =~= groups_model(gs@));
            }
            return Ok(gs);
        }
        if !punct_is(&v[i + 2], ',') {
            return Err(macro_error("expected `,`", span_id(&v[i + 2])));
        }
        proof {
            match group_list(s, i + 3) {
                Ok(rest) => {
                    assert(groups_model(prev) + (seq![gm] + rest) =~= groups_model(gs@) + rest);
                },
                Err(e) => {},
            }
        }
        i = i + 3;
    }
}

} // verus!
