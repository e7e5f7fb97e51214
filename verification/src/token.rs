//! The token model that every transformation of the crate works on.
//!
//! A macro receives its input as a tree of tokens and hands back another
//! such tree. The library holds that tree as plain values: identifiers and
//! literals by their text, punctuation by its character and spacing, and
//! delimited groups by their delimiter and their inner tokens. Every token
//! carries a span id, an integer that the caller maps back to a source
//! location; tokens that the library creates carry `CALL_SITE`.
use vstd::prelude::*;

verus! {

/// The span id of tokens that the library creates itself.
pub const CALL_SITE: u64 = 0;

/// The delimiter of a group of tokens.
#[derive(Clone, Copy, Debug, PartialEq, Eq, Structural)]
pub enum Delimiter {
    /// `( ... )`
    Parenthesis,
    /// `{ ... }`
    Brace,
    /// `[ ... ]`
    Bracket,
    /// An invisible delimiter.
    Invisible,
}

/// One token tree: an identifier, a punctuation character, a literal, or a
/// delimited group of further token trees.
#[derive(Debug)]
pub enum TokenTree {
    /// An identifier or keyword, by its text (raw identifiers keep their `r#`).
    Ident { name: String, span: u64 },
    /// A single punctuation character; `joint` is set when it is immediately
    /// followed by another punctuation character of the same operator.
    Punct { ch: char, joint: bool, span: u64 },
    /// A literal, by its source text (quotes and suffixes included).
    Literal { text: String, span: u64 },
    /// A delimited group.
    Group { delimiter: Delimiter, stream: Vec<TokenTree>, span: u64 },
}

/// The mathematical value of a token tree: the same shape, with texts as
/// character sequences and the inner tokens of a group as a sequence.
pub enum Tok {
    Ident { name: Seq<char>, span: u64 },
    Punct { ch: char, joint: bool, span: u64 },
    Literal { text: Seq<char>, span: u64 },
    Group { delimiter: Delimiter, stream: Seq<Tok>, span: u64 },
}

/// The value of a token tree.
pub open spec fn tok(t: TokenTree) -> Tok
    decreases t,
{
    match t {
        TokenTree::Ident { name, span } => Tok::Ident { name: name@, span },
        TokenTree::Punct { ch, joint, span } => Tok::Punct { ch, joint, span },
        TokenTree::Literal { text, span } => Tok::Literal { text: text@, span },
        TokenTree::Group { delimiter, stream, span } => Tok::Group {
            delimiter,
            stream: toks(stream@),
            span,
        },
    }
}

/// The values of a sequence of token trees.
pub open spec fn toks(s: Seq<TokenTree>) -> Seq<Tok>
    decreases s,
{
    Seq::new(
        s.len(),
        |i: int|
            if 0 <= i < s.len() {
                tok(s[i])
            } else {
                Tok::Punct { ch: ' ', joint: false, span: 0 }
            },
    )
}

impl DeepView for TokenTree {
    type V = Tok;

    open spec fn deep_view(&self) -> Tok {
        tok(*self)
    }
}

/// `t` is the identifier `word`.
pub open spec fn is_ident(t: Tok, word: Seq<char>) -> bool {
    t matches Tok::Ident { name, .. } && name == word
}

/// `t` is the punctuation character `c`.
pub open spec fn is_punct(t: Tok, c: char) -> bool {
    t matches Tok::Punct { ch, .. } && ch == c
}

/// `t` is the punctuation character `c`, joined to the next character.
pub open spec fn is_joint_punct(t: Tok, c: char) -> bool {
    t matches Tok::Punct { ch, joint, .. } && ch == c && joint
}

/// `t` is a group with delimiter `d`.
pub open spec fn is_group(t: Tok, d: Delimiter) -> bool {
    t matches Tok::Group { delimiter, .. } && delimiter == d
}

/// The inner tokens of a group (empty for any other token).
pub open spec fn group_stream(t: Tok) -> Seq<Tok> {
    match t {
        Tok::Group { stream, .. } => stream,
        _ => Seq::empty(),
    }
}

/// The span id of a token.
pub open spec fn span_of(t: Tok) -> u64 {
    match t {
        Tok::Ident { span, .. } => span,
        Tok::Punct { span, .. } => span,
        Tok::Literal { span, .. } => span,
        Tok::Group { span, .. } => span,
    }
}

/// The identifiers that Rust reserves as keywords, strict or reserved for
/// later use.
pub open spec fn is_keyword(w: Seq<char>) -> bool {
    ||| w == "as"@ ||| w == "async"@ ||| w == "await"@ ||| w == "break"@
    ||| w == "const"@ ||| w == "continue"@ ||| w == "crate"@ ||| w == "dyn"@
    ||| w == "else"@ ||| w == "enum"@ ||| w == "extern"@ ||| w == "false"@
    ||| w == "fn"@ ||| w == "for"@ ||| w == "if"@ ||| w == "impl"@
    ||| w == "in"@ ||| w == "let"@ ||| w == "loop"@ ||| w == "match"@
    ||| w == "mod"@ ||| w == "move"@ ||| w == "mut"@ ||| w == "pub"@
    ||| w == "ref"@ ||| w == "return"@ ||| w == "self"@ ||| w == "Self"@
    ||| w == "static"@ ||| w == "struct"@ ||| w == "super"@ ||| w == "trait"@
    ||| w == "true"@ ||| w == "type"@ ||| w == "unsafe"@ ||| w == "use"@
    ||| w == "where"@ ||| w == "while"@ ||| w == "abstract"@ ||| w == "become"@
    ||| w == "box"@ ||| w == "do"@ ||| w == "final"@ ||| w == "macro"@
    ||| w == "override"@ ||| w == "priv"@ ||| w == "typeof"@ ||| w == "unsized"@
    ||| w == "virtual"@ ||| w == "yield"@ ||| w == "try"@
}

/// The identifiers that `syn` refuses where it expects an identifier: the
/// keywords, and `_`.
pub open spec fn is_reserved_ident(w: Seq<char>) -> bool {
    w == "_"@ || is_keyword(w)
}

/// The message of `syn` for the keyword `w` where an identifier is expected.
pub open spec fn keyword_message(w: Seq<char>) -> Seq<char> {
    "expected identifier, found keyword `"@ + w + "`"@
}

/// Whether the text of `name` is `word`.
pub fn name_is(name: &String, word: &str) -> (b: bool)
    ensures
        b == (name@ == word@),
{
    let w = String::from_str(word);
    *name == w
}

/// Whether `t` is the identifier `word`.
pub fn ident_is(t: &TokenTree, word: &str) -> (b: bool)
    ensures
        b == is_ident(tok(*t), word@),
{
    match t {
        TokenTree::Ident { name, .. } => name_is(name, word),
        _ => false,
    }
}

/// Whether `t` is the punctuation character `c`.
pub fn punct_is(t: &TokenTree, c: char) -> (b: bool)
    ensures
        b == is_punct(tok(*t), c),
{
    match t {
        TokenTree::Punct { ch, .. } => *ch == c,
        _ => false,
    }
}

/// Whether `t` is the punctuation character `c` joined to the next one.
pub fn joint_punct_is(t: &TokenTree, c: char) -> (b: bool)
    ensures
        b == is_joint_punct(tok(*t), c),
{
    match t {
        TokenTree::Punct { ch, joint, .. } => *ch == c && *joint,
        _ => false,
    }
}

/// Whether `t` is a group delimited by `d`.
pub fn group_is(t: &TokenTree, d: Delimiter) -> (b: bool)
    ensures
        b == is_group(tok(*t), d),
{
    match t {
        TokenTree::Group { delimiter, .. } => *delimiter == d,
        _ => false,
    }
}

/// The span id of `t`.
pub fn span_id(t: &TokenTree) -> (s: u64)
    ensures
        s == span_of(tok(*t)),
{
    match t {
        TokenTree::Ident { span, .. } => *span,
        TokenTree::Punct { span, .. } => *span,
        TokenTree::Literal { span, .. } => *span,
        TokenTree::Group { span, .. } => *span,
    }
}

/// Whether `name` is a Rust keyword.
pub fn is_keyword_name(name: &String) -> (b: bool)
    ensures
        b == is_keyword(name@),
{
    name_is(name, "as") || name_is(name, "async") || name_is(name, "await")
        || name_is(name, "break") || name_is(name, "const") || name_is(name, "continue")
        || name_is(name, "crate") || name_is(name, "dyn") || name_is(name, "else")
        || name_is(name, "enum") || name_is(name, "extern") || name_is(name, "false")
        || name_is(name, "fn") || name_is(name, "for") || name_is(name, "if")
        || name_is(name, "impl") || name_is(name, "in") || name_is(name, "let")
        || name_is(name, "loop") || name_is(name, "match") || name_is(name, "mod")
        || name_is(name, "move") || name_is(name, "mut") || name_is(name, "pub")
        || name_is(name, "ref") || name_is(name, "return") || name_is(name, "self")
        || name_is(name, "Self") || name_is(name, "static") || name_is(name, "struct")
        || name_is(name, "super") || name_is(name, "trait") || name_is(name, "true")
        || name_is(name, "type") || name_is(name, "unsafe") || name_is(name, "use")
        || name_is(name, "where") || name_is(name, "while") || name_is(name, "abstract")
        || name_is(name, "become") || name_is(name, "box") || name_is(name, "do")
        || name_is(name, "final") || name_is(name, "macro") || name_is(name, "override")
        || name_is(name, "priv") || name_is(name, "typeof") || name_is(name, "unsized")
        || name_is(name, "virtual") || name_is(name, "yield") || name_is(name, "try")
}

/// A new identifier token.
pub fn new_ident(word: &str, span: u64) -> (t: TokenTree)
    ensures
        tok(t) == (Tok::Ident { name: word@, span }),
{
    TokenTree::Ident { name: String::from_str(word), span }
}

/// The values of a sequence with one more token.
pub proof fn lemma_toks_push(s: Seq<TokenTree>, x: TokenTree)
    ensures
        toks(s.push(x)) == toks(s).push(tok(x)),
{
    assert(toks(s.push(x)) =~= toks(s).push(tok(x)));
}

/// A deep copy of a token tree.
pub fn copy_tree(t: &TokenTree) -> (r: TokenTree)
    ensures
        tok(r) == tok(*t),
    decreases t, 1nat,
{
    match t {
        TokenTree::Ident { name, span } => TokenTree::Ident { name: name.clone(), span: *span },
        TokenTree::Punct { ch, joint, span } => TokenTree::Punct {
            ch: *ch,
            joint: *joint,
            span: *span,
        },
        TokenTree::Literal { text, span } => TokenTree::Literal { text: text.clone(), span: *span },
        TokenTree::Group { delimiter, stream, span } => {
            let s = copy_stream_range(stream, 0, stream.len());
            proof {
                assert(toks(stream@).subrange(0, stream@.len() as int) =~= toks(stream@));
            }
            TokenTree::Group { delimiter: *delimiter, stream: s, span: *span }
        },
    }
}

/// A deep copy of the tokens `v[lo..hi]`.
pub fn copy_stream_range(v: &Vec<TokenTree>, lo: usize, hi: usize) -> (r: Vec<TokenTree>)
    requires
        lo <= hi <= v.len(),
    ensures
        toks(r@) == toks(v@).subrange(lo as int, hi as int),
    decreases v, 0nat,
{
    let mut r: Vec<TokenTree> = Vec::new();
    let mut i = lo;
    while i < hi
        invariant
            lo <= i <= hi <= v.len(),
            toks(r@) == toks(v@).subrange(lo as int, i as int),
        decreases hi - i,
    {
        let c = copy_tree(&v[i]);
        let ghost prev = r@;
        r.push(c);
        proof {
            lemma_toks_push(prev, c);
            assert(toks(v@).subrange(lo as int, i + 1) =~= toks(v@).subrange(lo as int, i as int).push(tok(v@[i as int])));
        }
        i = i + 1;
    }
    r
}

/// Appends deep copies of the tokens `v[lo..hi]` to `out`.
pub fn append_range(out: &mut Vec<TokenTree>, v: &Vec<TokenTree>, lo: usize, hi: usize)
    requires
        lo <= hi <= v.len(),
    ensures
        toks(final(out)@) == toks(old(out)@) + toks(v@).subrange(lo as int, hi as int),
{
    let ghost start = toks(out@);
    let mut i = lo;
    while i < hi
        invariant
            lo <= i <= hi <= v.len(),
            toks(out@) == start + toks(v@).subrange(lo as int, i as int),
        decreases hi - i,
    {
        let c = copy_tree(&v[i]);
        let ghost prev = out@;
        out.push(c);
        proof {
            lemma_toks_push(prev, c);
            assert(start + toks(v@).subrange(lo as int, i + 1) =~= start + toks(v@).subrange(
                lo as int,
                i as int,
            ).push(tok(v@[i as int])));
        }
        i = i + 1;
    }
}

/// Appends `t` to `out`.
pub fn push_tree(out: &mut Vec<TokenTree>, t: TokenTree)
    ensures
        toks(final(out)@) == toks(old(out)@).push(tok(t)),
{
    let ghost prev = out@;
    out.push(t);
    proof {
        lemma_toks_push(prev, t);
    }
}

/// Whether `syn` refuses `name` where it expects an identifier.
pub fn is_reserved_ident_name(name: &String) -> (b: bool)
    ensures
        b == is_reserved_ident(name@),
{
    name_is(name, "_") || is_keyword_name(name)
}

/// The message for the keyword `name` where an identifier is expected.
pub fn keyword_error_message(name: &String) -> (m: String)
    ensures
        m@ == keyword_message(name@),
{
    let mut m = String::from_str("expected identifier, found keyword `");
    m.append(name.as_str());
    m.append("`");
    m
}

} // verus!
