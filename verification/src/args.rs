//! The argument of the attribute: `async_signature<..>(..) -> .. where ..`.
//!
//! It gives the async flavour other generic parameters, parameters, return
//! type or `where` clause than the synchronous one. After the name come, in
//! this order: optional generic parameters `<..>`, the parameter list in
//! parentheses, an optional return type `-> ..` and an optional `where`
//! clause. Each part must be what `syn` parses as that part.
use vstd::prelude::*;
use crate::error::{error_view, macro_error, MacroError};
use crate::grammar::{
    angle_end, find_angle_end, find_word, find_word_from, lemma_find_word_bounds, lemma_simple_angle_end,
    simple_angle,
};
use crate::arguments::lemma_valid_names_are_no_keywords;
use crate::render::{render_range, render_tokens};
use crate::syntax::{
    message_view, reject_fn_args, reject_generics, reject_return_type, reject_where_clause,
};
use crate::token::{
    is_reserved_ident, is_reserved_ident_name, keyword_error_message, keyword_message,
    copy_stream_range, group_stream, ident_is, is_group, is_ident, is_joint_punct, is_punct,
    joint_punct_is, punct_is, span_id, span_of, toks, Delimiter, Tok, TokenTree, CALL_SITE,
};

verus! {

/// Replacement generics: the parameters as written between `<` and `>`
/// (delimiters included), and the `where` clause as written (keyword
/// included). Either is empty where nothing is to be written.
pub struct Generics {
    pub params: Vec<TokenTree>,
    pub where_clause: Vec<TokenTree>,
}

/// A parsed `async_signature` argument.
pub struct Args {
    /// Replaces the generics (parameters and `where` clause) when present.
    pub generics: Option<Generics>,
    /// Replaces the parameters between the parentheses.
    pub inputs: Vec<TokenTree>,
    /// Replaces the return type (arrow included) when present.
    pub output: Option<Vec<TokenTree>>,
}

/// The value of parsed arguments.
pub struct ArgsModel {
    pub generics: Option<(Seq<Tok>, Seq<Tok>)>,
    pub inputs: Seq<Tok>,
    pub output: Option<Seq<Tok>>,
}

impl Args {
    /// The value of these arguments.
    pub open spec fn model(self) -> ArgsModel {
        ArgsModel {
            generics: match self.generics {
                Some(g) => Some((toks(g.params@), toks(g.where_clause@))),
                None => None,
            },
            inputs: toks(self.inputs@),
            output: match self.output {
                Some(o) => Some(toks(o@)),
                None => None,
            },
        }
    }
}

/// Generic parameters `<` .. `>` are written only when there is one.
pub open spec fn printed_params(p: Seq<Tok>) -> Seq<Tok> {
    if p.len() <= 2 {
        Seq::empty()
    } else {
        p
    }
}

/// A `where` clause is written only when it has a predicate.
pub open spec fn printed_where(w: Seq<Tok>) -> Seq<Tok> {
    if w.len() <= 1 {
        Seq::empty()
    } else {
        w
    }
}

/// Generic parameters follow the name.
pub open spec fn has_params(s: Seq<Tok>) -> bool {
    1 < s.len() && is_punct(s[1], '<')
}

/// Where the generic parameters end (1 when there are none).
pub open spec fn params_end(s: Seq<Tok>) -> int {
    if has_params(s) {
        angle_end(s, 1, 0)
    } else {
        1
    }
}

/// The return type follows the parameters at position `p`.
pub open spec fn has_output_at(s: Seq<Tok>, p: int) -> bool {
    0 <= p && p + 1 < s.len() && is_joint_punct(s[p], '-') && is_punct(s[p + 1], '>')
}

/// Where the `where` clause of the arguments `s` starts (or the first token
/// left over after the parameters and the return type).
pub open spec fn where_pos(s: Seq<Tok>) -> int {
    let p = params_end(s) + 1;
    if has_output_at(s, p) {
        find_word(s, p + 2, "where"@)
    } else {
        p
    }
}

/// A `where` clause follows the parameters and the return type.
pub open spec fn has_where(s: Seq<Tok>) -> bool {
    where_pos(s) < s.len() && is_ident(s[where_pos(s)], "where"@)
}

/// What `syn` said of each part of an `async_signature` argument: `None`
/// where the part parsed or is absent, else the message of its error.
pub struct SignatureChecks {
    /// The generic parameters `<..>`.
    pub generics: Option<String>,
    /// The parameters between the parentheses.
    pub inputs: Option<String>,
    /// The return type, arrow included.
    pub output: Option<String>,
    /// The `where` clause.
    pub where_clause: Option<String>,
}

/// The value of the checks: the messages as text.
pub struct ChecksModel {
    pub generics: Option<Seq<char>>,
    pub inputs: Option<Seq<char>>,
    pub output: Option<Seq<char>>,
    pub where_clause: Option<Seq<char>>,
}

impl SignatureChecks {
    /// The value of these checks.
    pub open spec fn model(self) -> ChecksModel {
        ChecksModel {
            generics: message_view(self.generics),
            inputs: message_view(self.inputs),
            output: message_view(self.output),
            where_clause: message_view(self.where_clause),
        }
    }
}

/// What the arguments `s` that follow `async_signature` parse to, where `c`
/// is what `syn` said of their parts: the parsed parts, or an error message
/// and its span id.
pub open spec fn signature_result_given(s: Seq<Tok>, c: ChecksModel) -> Result<
    ArgsModel,
    (Seq<char>, u64),
> {
    let g = params_end(s);
    let params = s.subrange(1, g);
    if has_params(s) && c.generics is Some {
        Err((c.generics->0, CALL_SITE))
    } else if g >= s.len() {
        Err(("unexpected end of input, expected parentheses"@, CALL_SITE))
    } else if !is_group(s[g], Delimiter::Parenthesis) {
        Err(("expected parentheses"@, span_of(s[g])))
    } else if c.inputs is Some {
        Err((c.inputs->0, CALL_SITE))
    } else {
        let p = g + 1;
        let has_out = has_output_at(s, p);
        let o = where_pos(s);
        if has_out && c.output is Some {
            Err((c.output->0, CALL_SITE))
        } else if has_where(s) && c.where_clause is Some {
            Err((c.where_clause->0, CALL_SITE))
        } else if !has_where(s) && o < s.len() {
            Err(("unexpected token"@, span_of(s[o])))
        } else {
            Ok(
                ArgsModel {
                    generics: if has_params(s) || has_where(s) {
                        Some(
                            (
                                printed_params(params),
                                if has_where(s) {
                                    printed_where(s.subrange(o, s.len() as int))
                                } else {
                                    Seq::empty()
                                },
                            ),
                        )
                    } else {
                        None
                    },
                    inputs: group_stream(s[g]),
                    output: if has_out {
                        Some(s.subrange(p, o))
                    } else {
                        None
                    },
                },
            )
        }
    }
}

/// What the attribute's arguments `s` parse to, where `c` is what `syn`
/// said of their parts: the name must be the identifier `async_signature`,
/// followed by a signature.
pub open spec fn args_result_given(s: Seq<Tok>, c: ChecksModel) -> Result<
    ArgsModel,
    (Seq<char>, u64),
> {
    if s.len() == 0 {
        Err(("unexpected end of input, expected identifier"@, CALL_SITE))
    } else if !(s[0] is Ident) {
        Err(("expected identifier"@, span_of(s[0])))
    } else if is_reserved_ident(s[0]->Ident_name) {
        Err((keyword_message(s[0]->Ident_name), span_of(s[0])))
    } else if !is_ident(s[0], "async_signature"@) {
        Err(("async_generic can only take a async_signature argument"@, CALL_SITE))
    } else {
        signature_result_given(s, c)
    }
}

/// A result of parsing, as a value.
pub open spec fn args_view(r: Result<Args, MacroError>) -> Result<ArgsModel, (Seq<char>, u64)> {
    match r {
        Ok(a) => Ok(a.model()),
        Err(e) => Err(error_view(e)),
    }
}

/// Whether a return type `-> ..` starts at position `p` of `v`.
fn output_at(v: &Vec<TokenTree>, p: usize) -> (b: bool)
    ensures
        b == has_output_at(toks(v@), p as int),
{
    v.len() >= 2 && p < v.len() - 1 && joint_punct_is(&v[p], '-') && punct_is(&v[p + 1], '>')
}

/// An error whose message is the text `m`.
fn syntax_error(m: String) -> (e: MacroError)
    ensures
        error_view(e) == (m@, CALL_SITE),
{
    MacroError { message: m, span: CALL_SITE }
}

impl Args {
    /// Parses the arguments of the attribute, asking `syn` whether each
    /// part of the signature parses: the result is what `from_checks` gives
    /// for the answers that came back.
    pub fn parse(input: &Vec<TokenTree>) -> (r: Result<Args, MacroError>)
        ensures
            exists|c: ChecksModel| args_view(r) == args_result_given(toks(input@), c),
    {
        let ghost s = toks(input@);
        assert(s.len() == input.len());
        let n = input.len();
        let has_params = n > 1 && punct_is(&input[1], '<');
        let g = if has_params {
            find_angle_end(input, 1)
        } else {
            1
        };
        let generics = if has_params {
            reject_generics(render_range(input, 1, g).as_str())
        } else {
            None
        };
        let inputs = if g < n {
            match &input[g] {
                TokenTree::Group { delimiter: Delimiter::Parenthesis, stream, .. } => {
                    reject_fn_args(render_tokens(stream).as_str())
                },
                _ => None,
            }
        } else {
            None
        };
        let (output, where_clause) = if g < n {
            let p = g + 1;
            let has_out = output_at(input, p);
            let o = if has_out {
                find_word_from(input, p + 2, "where")
            } else {
                p
            };
            let output = if has_out {
                reject_return_type(render_range(input, p, o).as_str())
            } else {
                None
            };
            let where_clause = if o < n && ident_is(&input[o], "where") {
                reject_where_clause(render_range(input, o, n).as_str())
            } else {
                None
            };
            (output, where_clause)
        } else {
            (None, None)
        };
        let checks = SignatureChecks { generics, inputs, output, where_clause };
        let r = Self::from_checks(input, &checks);
        proof {
            assert(args_view(r) == args_result_given(s, checks.model()));
        }
        r
    }

    /// Parses the arguments of the attribute, where `checks` is what `syn`
    /// said of their parts.
    pub fn from_checks(input: &Vec<TokenTree>, checks: &SignatureChecks) -> (r: Result<
        Args,
        MacroError,
    >)
        ensures
            args_view(r) == args_result_given(toks(input@), checks.model()),
    {
        if input.len() == 0 {
            return Err(macro_error("unexpected end of input, expected identifier", CALL_SITE));
        }
        match &input[0] {
            TokenTree::Ident { .. } => {},
            _ => {
                return Err(macro_error("expected identifier", span_id(&input[0])));
            },
        }
        if let TokenTree::Ident { name, span } = &input[0] {
            if is_reserved_ident_name(name) {
                return Err(MacroError { message: keyword_error_message(name), span: *span });
            }
        }
        if !ident_is(&input[0], "async_signature") {
            return Err(
                macro_error("async_generic can only take a async_signature argument", CALL_SITE),
            );
        }
        Self::parse_signature(input, checks)
    }

    /// Parses what follows `async_signature`.
    fn parse_signature(input: &Vec<TokenTree>, checks: &SignatureChecks) -> (r: Result<
        Args,
        MacroError,
    >)
        requires
            input.len() >= 1,
        ensures
            args_view(r) == signature_result_given(toks(input@), checks.model()),
    {
        let ghost s = toks(input@);
        assert(s.len() == input.len());
        let has_params = input.len() > 1 && punct_is(&input[1], '<');
        let g = if has_params {
            find_angle_end(input, 1)
        } else {
            1
        };
        if has_params {
            if let Some(m) = &checks.generics {
                return Err(syntax_error(m.clone()));
            }
        }
        if g >= input.len() {
            return Err(macro_error("unexpected end of input, expected parentheses", CALL_SITE));
        }
        let inputs = match &input[g] {
            TokenTree::Group { delimiter: Delimiter::Parenthesis, stream, .. } => {
                if let Some(m) = &checks.inputs {
                    return Err(syntax_error(m.clone()));
                }
                let c = copy_stream_range(stream, 0, stream.len());
                proof {
                    assert(toks(stream@).subrange(0, stream@.len() as int) =~= toks(stream@));
                }
                c
            },
            _ => {
                return Err(macro_error("expected parentheses", span_id(&input[g])));
            },
        };
        let p = g + 1;
        let has_out = output_at(input, p);
        let o = if has_out {
            find_word_from(input, p + 2, "where")
        } else {
            p
        };
        let has_where = o < input.len() && ident_is(&input[o], "where");
        if has_out {
            if let Some(m) = &checks.output {
                return Err(syntax_error(m.clone()));
            }
        }
        if has_where {
            if let Some(m) = &checks.where_clause {
                return Err(syntax_error(m.clone()));
            }
        }
        if !has_where && o < input.len() {
            return Err(macro_error("unexpected token", span_id(&input[o])));
        }
        let generics = if has_params || has_where {
            let params = if g - 1 <= 2 {
                Vec::new()
            } else {
                copy_stream_range(input, 1, g)
            };
            let where_clause = if has_where && input.len() - o > 1 {
                copy_stream_range(input, o, input.len())
            } else {
                Vec::new()
            };
            proof {
                assert(toks(Seq::<TokenTree>::empty()) =~= Seq::<Tok>::empty());
            }
            Some(Generics { params, where_clause })
        } else {
            None
        };
        let output = if has_out {
            Some(copy_stream_range(input, p, o))
        } else {
            None
        };

        Ok(Args { generics, inputs, output })
    }
}


/// What `syn` says of a signature whose every part parses.
pub open spec fn all_parts_parse() -> ChecksModel {
    ChecksModel { generics: None, inputs: None, output: None, where_clause: None }
}

/// `async_signature<P>(I) -> R where W`, each part of which parses (and of
/// which `<P>`, `-> R` and `where W` may be left out), gives the parameters
/// `I`, the return type `-> R` if written, and generics when `<P>` or
/// `where W` is written: `<P>` (nothing for an empty `<>`) with `where W`
/// (nothing for a bare `where`). (Stated for generic parameters with no
/// `<` or `>` inside.)
pub proof fn law_signature_parts_are_taken_as_written(
    name: Tok,
    gen: Seq<Tok>,
    params: Tok,
    ret: Seq<Tok>,
    wh: Seq<Tok>,
)
    requires
        is_ident(name, "async_signature"@),
        gen.len() == 0 || simple_angle(gen),
        is_group(params, Delimiter::Parenthesis),
        ret.len() == 0 || (ret.len() >= 3 && is_joint_punct(ret[0], '-') && is_punct(ret[1], '>')),
        forall|k: int| 0 <= k < ret.len() ==> !is_ident(#[trigger] ret[k], "where"@),
        wh.len() == 0 || is_ident(wh[0], "where"@),
    ensures
        args_result_given(seq![name] + gen + seq![params] + ret + wh, all_parts_parse()) == Ok::<
            ArgsModel,
            (Seq<char>, u64),
        >(
            ArgsModel {
                generics: if gen.len() > 0 || wh.len() > 0 {
                    Some(
                        (
                            if gen.len() == 2 {
                                Seq::empty()
                            } else {
                                gen
                            },
                            if wh.len() == 1 {
                                Seq::empty()
                            } else {
                                wh
                            },
                        ),
                    )
                } else {
                    None
                },
                inputs: group_stream(params),
                output: if ret.len() > 0 {
                    Some(ret)
                } else {
                    None
                },
            },
        ),
{
    reveal_strlit("async_signature");
    reveal_strlit("where");
    lemma_valid_names_are_no_keywords("async_signature"@);
    let s = seq![name] + gen + seq![params] + ret + wh;
    let c = all_parts_parse();
    assert(s[0] == name);
    let g = 1 + gen.len() as int;
    if gen.len() > 0 {
        assert(s.subrange(1, 1 + gen.len() as int) =~= gen);
        lemma_simple_angle_end(s, 1, gen);
        assert(s[1] == gen[0]);
        assert(has_params(s));
    } else {
        assert(s[1] == params);
        assert(!has_params(s));
    }
    assert(params_end(s) == g);
    assert(s[g] == params);
    assert(s.subrange(1, g) =~= gen);
    let p = g + 1;
    let o = p + ret.len() as int;
    assert forall|k: int| 0 <= k < ret.len() implies #[trigger] s[p + k] == ret[k] by {}
    assert forall|k: int| 0 <= k < wh.len() implies #[trigger] s[o + k] == wh[k] by {}
    if ret.len() > 0 {
        assert(s[p] == ret[0]);
        assert(s[p + 1] == ret[1]);
        assert(has_output_at(s, p));
        lemma_find_word_bounds(s, p + 2, "where"@);
        let w = find_word(s, p + 2, "where"@);
        if w < o {
            assert(s[p + (w - p)] == ret[w - p]);
        }
        if wh.len() > 0 && w > o {
            assert(s[o + 0] == wh[0]);
        }
        if wh.len() == 0 && w < s.len() {
            assert(w < o);
        }
        assert(w == o);
        assert(s.subrange(p, o) =~= ret);
    } else {
        if wh.len() > 0 {
            assert(s[p] == wh[0]);
        } else {
            assert(p == s.len());
        }
        assert(!has_output_at(s, p));
    }
    assert(where_pos(s) == o);
    if wh.len() > 0 {
        assert(s[o + 0] == wh[0]);
        assert(has_where(s));
        assert(s.subrange(o, s.len() as int) =~= wh);
    } else {
        assert(o == s.len());
        assert(!has_where(s));
    }
    if gen.len() == 0 {
        assert(gen =~= Seq::<Tok>::empty());
    }
    if wh.len() == 0 {
        assert(wh =~= Seq::<Tok>::empty());
    }
}

/// `async_signature` not followed by a parameter list in parentheses (nor
/// by generic parameters) is refused: at the end of the input with
/// "unexpected end of input, expected parentheses", else at the token that
/// stands there with "expected parentheses".
pub proof fn law_signature_without_parameters_is_refused(name: Tok, rest: Seq<Tok>, c: ChecksModel)
    requires
        is_ident(name, "async_signature"@),
        rest.len() == 0 || (!is_group(rest[0], Delimiter::Parenthesis) && !is_punct(rest[0], '<')),
    ensures
        args_result_given(seq![name] + rest, c) == if rest.len() == 0 {
            Err::<ArgsModel, (Seq<char>, u64)>(
                ("unexpected end of input, expected parentheses"@, CALL_SITE),
            )
        } else {
            Err::<ArgsModel, (Seq<char>, u64)>(("expected parentheses"@, span_of(rest[0])))
        },
{
    reveal_strlit("async_signature");
    lemma_valid_names_are_no_keywords("async_signature"@);
    let s = seq![name] + rest;
    assert(s[0] == name);
    if rest.len() > 0 {
        assert(s[1] == rest[0]);
    }
    assert(!has_params(s));
    assert(params_end(s) == 1);
}

/// A token after the parameters of `async_signature` that starts neither
/// a return type `->` nor a `where` clause, as in `async_signature(x: u8) y`,
/// is refused with "unexpected token" at that token (where the parameters
/// parse).
pub proof fn law_token_after_the_signature_is_refused(
    name: Tok,
    params: Tok,
    x: Tok,
    rest: Seq<Tok>,
    c: ChecksModel,
)
    requires
        is_ident(name, "async_signature"@),
        is_group(params, Delimiter::Parenthesis),
        c.inputs is None,
        !is_joint_punct(x, '-'),
        !is_ident(x, "where"@),
    ensures
        args_result_given(seq![name, params, x] + rest, c) == Err::<ArgsModel, (Seq<char>, u64)>(
            ("unexpected token"@, span_of(x)),
        ),
{
    reveal_strlit("async_signature");
    lemma_valid_names_are_no_keywords("async_signature"@);
    let s = seq![name, params, x] + rest;
    assert(s[0] == name);
    assert(s[1] == params);
    assert(s[2] == x);
    assert(!has_params(s));
    assert(params_end(s) == 1);
    assert(!has_output_at(s, 2));
    assert(where_pos(s) == 2);
    assert(!has_where(s));
}

} // verus!
