//! Writing tokens back as source text.
//!
//! Each identifier and literal is followed by a space, each punctuation
//! character by a space unless it is joined to the next one, and each group
//! is written between its delimiters. Reading the text again gives the
//! same tokens.
use vstd::prelude::*;
use crate::token::{tok, toks, Delimiter, Tok, TokenTree};

verus! {

/// The opening delimiter of a group.
pub open spec fn open_text(d: Delimiter) -> Seq<char> {
    match d {
        Delimiter::Parenthesis => seq!['('],
        Delimiter::Brace => seq!['{'],
        Delimiter::Bracket => seq!['['],
        Delimiter::Invisible => Seq::empty(),
    }
}

/// The closing delimiter of a group.
pub open spec fn close_text(d: Delimiter) -> Seq<char> {
    match d {
        Delimiter::Parenthesis => seq![')'],
        Delimiter::Brace => seq!['}'],
        Delimiter::Bracket => seq![']'],
        Delimiter::Invisible => Seq::empty(),
    }
}

/// The source text of one token.
pub open spec fn render_tok(t: Tok) -> Seq<char>
    decreases t,
{
    match t {
        Tok::Ident { name, .. } => name.push(' '),
        Tok::Punct { ch, joint, .. } => if joint {
            seq![ch]
        } else {
            seq![ch, ' ']
        },
        Tok::Literal { text, .. } => text.push(' '),
        Tok::Group { delimiter, stream, .. } => (open_text(delimiter) + render(stream) + close_text(
            delimiter,
        )).push(' '),
    }
}

/// The source text of a sequence of tokens.
pub open spec fn render(s: Seq<Tok>) -> Seq<char>
    decreases s,
{
    if s.len() == 0 {
        Seq::empty()
    } else {
        render(s.drop_last()) + render_tok(s.last())
    }
}

/// Calls `String::push`, which its documentation says appends the
/// character `c` to the end of the string; the contract claims that.
#[verifier::external_body]
fn push_char(s: &mut String, c: char)
    ensures
        final(s)@ == old(s)@.push(c),
{
    s.push(c);
}

/// Appends the opening delimiter of `d`.
fn push_open(s: &mut String, d: Delimiter)
    ensures
        final(s)@ == old(s)@ + open_text(d),
{
    match d {
        Delimiter::Parenthesis => push_char(s, '('),
        Delimiter::Brace => push_char(s, '{'),
        Delimiter::Bracket => push_char(s, '['),
        Delimiter::Invisible => {},
    }
    proof {
        assert(old(s)@ + Seq::<char>::empty() =~= old(s)@);
        assert(old(s)@.push('(') =~= old(s)@ + seq!['(']);
        assert(old(s)@.push('{') =~= old(s)@ + seq!['{']);
        assert(old(s)@.push('[') =~= old(s)@ + seq!['[']);
    }
}

/// Appends the closing delimiter of `d`.
fn push_close(s: &mut String, d: Delimiter)
    ensures
        final(s)@ == old(s)@ + close_text(d),
{
    match d {
        Delimiter::Parenthesis => push_char(s, ')'),
        Delimiter::Brace => push_char(s, '}'),
        Delimiter::Bracket => push_char(s, ']'),
        Delimiter::Invisible => {},
    }
    proof {
        assert(old(s)@ + Seq::<char>::empty() =~= old(s)@);
        assert(old(s)@.push(')') =~= old(s)@ + seq![')']);
        assert(old(s)@.push('}') =~= old(s)@ + seq!['}']);
        assert(old(s)@.push(']') =~= old(s)@ + seq![']']);
    }
}

/// Appends the text of `t` to `out`.
fn render_tree_into(t: &TokenTree, out: &mut String)
    ensures
        final(out)@ == old(out)@ + render_tok(tok(*t)),
    decreases t, 1nat,
{
    match t {
        TokenTree::Ident { name, .. } => {
            out.append(name.as_str());
            push_char(out, ' ');
            proof {
                assert(old(out)@ + name@ + seq![' '] =~= old(out)@ + name@.push(' '));
            }
        },
        TokenTree::Punct { ch, joint, .. } => {
            push_char(out, *ch);
            if !*joint {
                push_char(out, ' ');
            }
            proof {
                assert(old(out)@.push(*ch) =~= old(out)@ + seq![*ch]);
                assert(old(out)@.push(*ch).push(' ') =~= old(out)@ + seq![*ch, ' ']);
            }
        },
        TokenTree::Literal { text, .. } => {
            out.append(text.as_str());
            push_char(out, ' ');
            proof {
                assert(old(out)@ + text@ + seq![' '] =~= old(out)@ + text@.push(' '));
            }
        },
        TokenTree::Group { delimiter, stream, .. } => {
            push_open(out, *delimiter);
            let ghost mid = out@;
            render_stream_into(stream, out);
            push_close(out, *delimiter);
            push_char(out, ' ');
            proof {
                assert(out@ =~= old(out)@ + (open_text(*delimiter) + render(toks(stream@))
                    + close_text(*delimiter)).push(' '));
            }
        },
    }
}

/// Appends the text of the tokens `v` to `out`.
fn render_stream_into(v: &Vec<TokenTree>, out: &mut String)
    ensures
        final(out)@ == old(out)@ + render(toks(v@)),
    decreases v, 0nat,
{
    let ghost start = out@;
    let mut i: usize = 0;
    while i < v.len()
        invariant
            i <= v.len(),
            out@ == start + render(toks(v@.subrange(0, i as int))),
        decreases v.len() - i,
    {
        proof {
            assert(decreases_to!(v => v@[i as int]));
        }
        render_tree_into(&v[i], out);
        proof {
            let p = toks(v@.subrange(0, i + 1));
            assert(p.drop_last() =~= toks(v@.subrange(0, i as int)));
            assert(p.last() == tok(v@[i as int]));
        }
        i = i + 1;
    }
    proof {
        assert(v@.subrange(0, v.len() as int) =~= v@);
    }
}

/// The source text of the tokens `v`.
pub fn render_tokens(v: &Vec<TokenTree>) -> (s: String)
    ensures
        s@ == render(toks(v@)),
{
    let mut s = String::new();
    render_stream_into(v, &mut s);
    proof {
        assert(Seq::<char>::empty() + render(toks(v@)) =~= render(toks(v@)));
    }
    s
}

/// The source text of the tokens `v[lo..hi]`.
pub fn render_range(v: &Vec<TokenTree>, lo: usize, hi: usize) -> (s: String)
    requires
        lo <= hi <= v.len(),
    ensures
        s@ == render(toks(v@).subrange(lo as int, hi as int)),
{
    let mut s = String::new();
    let mut i: usize = lo;
    while i < hi
        invariant
            lo <= i <= hi <= v.len(),
            s@ == render(toks(v@).subrange(lo as int, i as int)),
        decreases hi - i,
    {
        render_tree_into(&v[i], &mut s);
        proof {
            let p = toks(v@).subrange(lo as int, i + 1);
            assert(p.drop_last() =~= toks(v@).subrange(lo as int, i as int));
        }
        i = i + 1;
    }
    s
}

/// The text of two token sequences one after the other is the text of the
/// first followed by the text of the second.
pub proof fn law_rendering_concatenates(s1: Seq<Tok>, s2: Seq<Tok>)
    ensures
        render(s1 + s2) == render(s1) + render(s2),
    decreases s2.len(),
{
    if s2.len() == 0 {
        assert(s1 + s2 =~= s1);
        assert(render(s2) == Seq::<char>::empty());
        assert(render(s1) + render(s2) =~= render(s1));
    } else {
        let t = s1 + s2;
        assert(t.drop_last() =~= s1 + s2.drop_last());
        assert(t.last() == s2.last());
        law_rendering_concatenates(s1, s2.drop_last());
        assert(render(s1) + render(s2.drop_last()) + render_tok(s2.last()) =~= render(s1) + (render(
            s2.drop_last(),
        ) + render_tok(s2.last())));
    }
}

/// Tokens are written apart: an identifier, then a punctuation character
/// joined to the next one, then that next one, a literal and a group come
/// out as `name` and a space, the two characters together and a space, the
/// literal's text and a space, and the group's delimiters around the text
/// of its tokens, followed by a space.
pub proof fn law_tokens_are_written_apart(i: Tok, p: Tok, q: Tok, l: Tok, g: Tok)
    requires
        i is Ident,
        p matches Tok::Punct { joint, .. } && joint,
        q matches Tok::Punct { joint, .. } && !joint,
        l is Literal,
        g is Group,
    ensures
        render(seq![i, p, q, l, g]) == i->Ident_name + seq![' ', p->Punct_ch, q->Punct_ch, ' ']
            + l->Literal_text + seq![' '] + open_text(g->Group_delimiter) + render(g->Group_stream)
            + close_text(g->Group_delimiter) + seq![' '],
{
    let s = seq![i, p, q, l, g];
    assert(s.drop_last() =~= seq![i, p, q, l]);
    assert(seq![i, p, q, l].drop_last() =~= seq![i, p, q]);
    assert(seq![i, p, q].drop_last() =~= seq![i, p]);
    assert(seq![i, p].drop_last() =~= seq![i]);
    assert(seq![i].drop_last() =~= Seq::<Tok>::empty());
    assert(render(Seq::<Tok>::empty()) == Seq::<char>::empty());
    assert(render(seq![i]) == render(Seq::<Tok>::empty()) + render_tok(i));
    assert(render(seq![i]) =~= i->Ident_name.push(' '));
    assert(render(seq![i, p]) == render(seq![i]) + render_tok(p));
    assert(render(seq![i, p, q]) == render(seq![i, p]) + render_tok(q));
    assert(render(seq![i, p, q, l]) == render(seq![i, p, q]) + render_tok(l));
    assert(render(s) == render(seq![i, p, q, l]) + render_tok(g));
    assert(render_tok(g) == (open_text(g->Group_delimiter) + render(g->Group_stream) + close_text(
        g->Group_delimiter,
    )).push(' '));
    assert(render(s) =~= i->Ident_name + seq![' ', p->Punct_ch, q->Punct_ch, ' '] + l->Literal_text
        + seq![' '] + open_text(g->Group_delimiter) + render(g->Group_stream) + close_text(
        g->Group_delimiter,
    ) + seq![' ']);
}

} // verus!
