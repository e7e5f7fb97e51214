use async_generic::desugar_if_async::DesugarIfAsync;
use async_generic::render::render_tokens;
use async_generic::{parse_quote_call_generic, Delimiter, TokenTree};
use std::str::FromStr;

fn convert(ts: proc_macro2::TokenStream, next: &mut u64) -> Vec<TokenTree> {
    let mut out = Vec::new();
    for tt in ts {
        *next += 1;
        let span = *next;
        out.push(match tt {
            proc_macro2::TokenTree::Ident(i) => TokenTree::Ident { name: i.to_string(), span },
            proc_macro2::TokenTree::Punct(p) => TokenTree::Punct {
                ch: p.as_char(),
                joint: p.spacing() == proc_macro2::Spacing::Joint,
                span,
            },
            proc_macro2::TokenTree::Literal(l) => TokenTree::Literal { text: l.to_string(), span },
            proc_macro2::TokenTree::Group(g) => TokenTree::Group {
                delimiter: match g.delimiter() {
                    proc_macro2::Delimiter::Parenthesis => Delimiter::Parenthesis,
                    proc_macro2::Delimiter::Brace => Delimiter::Brace,
                    proc_macro2::Delimiter::Bracket => Delimiter::Bracket,
                    proc_macro2::Delimiter::None => Delimiter::Invisible,
                },
                stream: convert(g.stream(), next),
                span,
            },
        });
    }
    out
}

fn lex(text: &str) -> Vec<TokenTree> {
    let mut next = 0;
    convert(proc_macro2::TokenStream::from_str(text).unwrap(), &mut next)
}

fn norm(text: &str) -> String {
    render_tokens(&lex(text))
}

fn rewrite(text: &str) -> Result<String, String> {
    match parse_quote_call_generic(lex(text)) {
        Ok(v) => Ok(render_tokens(&v)),
        Err(e) => Err(e.message),
    }
}

const MISPLACED: &str = "call_generic must be used on a method call or a function call.";

#[test]
fn generic_call() {
    assert_eq!(
        rewrite("fn do_stuff() -> String { #[call_generic] do_nested_stuff() }"),
        Ok(norm("fn do_stuff() -> String { if _async { do_nested_stuff_async().await } else { do_nested_stuff() } }"))
    );
    assert_eq!(
        rewrite("fn stuff(&self) -> String { #[call_generic] self.nested_stuff() }"),
        Ok(norm("fn stuff(&self) -> String { if _async { self.nested_stuff_async().await } else { self.nested_stuff() } }"))
    );
}

#[test]
fn generic_call_invalid_usage() {
    assert_eq!(
        rewrite("fn do_stuff() -> String { #[call_generic] \"not a function call or method call\" }"),
        Err(MISPLACED.to_string())
    );
}

#[test]
fn paths_and_turbofish() {
    assert_eq!(
        rewrite("#[call_generic] a::b::<u8>(x);"),
        Ok(norm("if _async { a::b_async::<u8>(x).await } else { a::b::<u8>(x) };"))
    );
    assert_eq!(
        rewrite("#[call_generic] x.m::<T>(y);"),
        Ok(norm("if _async { x.m_async::<T>(y).await } else { x.m::<T>(y) };"))
    );
    assert_eq!(
        rewrite("#[call_generic] <T as Tr>::f(y);"),
        Ok(norm("if _async { <T as Tr>::f_async(y).await } else { <T as Tr>::f(y) };"))
    );
}

#[test]
fn last_method_of_a_chain_is_renamed() {
    assert_eq!(
        rewrite("let v = #[call_generic] a.b(1).c(2) + 3;"),
        Ok(norm("let v = if _async { a.b(1).c_async(2).await } else { a.b(1).c(2) } + 3;"))
    );
}

#[test]
fn other_attributes_stay_with_the_call() {
    assert_eq!(
        rewrite("#[allow(x)] #[call_generic] #[cfg(y)] f();"),
        Ok(norm("if _async { #[allow(x)] #[cfg(y)] f_async().await } else { #[allow(x)] #[cfg(y)] f() };"))
    );
    assert_eq!(
        rewrite("#[a::call_generic] #[call_generic(x)] f();"),
        Ok(norm("if _async { f_async().await } else { f() };"))
    );
}

#[test]
fn call_through_no_path_drops_the_attribute() {
    assert_eq!(rewrite("#[call_generic] (f)(x);"), Ok(norm("(f)(x);")));
    assert_eq!(rewrite("#[call_generic] f()(x);"), Ok(norm("f()(x);")));
}

#[test]
fn attribute_on_anything_else_is_an_error() {
    for text in [
        "#[call_generic] f()?;",
        "#[call_generic] f().await;",
        "#[call_generic] a.b;",
        "#[call_generic] x;",
        "#[call_generic] let x = f();",
        "#[call_generic] !f();",
        "#[call_generic] m!();",
        "#![call_generic] fn f() {}",
        "#[call_generic] fn f() {}",
    ] {
        assert_eq!(rewrite(text), Err(MISPLACED.to_string()), "{}", text);
    }
}

#[test]
fn calls_inside_a_rewritten_call_are_not_rewritten() {
    assert_eq!(
        rewrite("#[call_generic] f(#[call_generic] g());"),
        Err(MISPLACED.to_string())
    );
    assert_eq!(
        rewrite("f(#[call_generic] g());"),
        Ok(norm("f(if _async { g_async().await } else { g() });"))
    );
}

#[test]
fn error_points_at_the_last_misplaced_attribute() {
    let input = lex("#[call_generic] x; { #[call_generic] y; }");
    let last_hash = match &input[4] {
        TokenTree::Group { stream, .. } => match &stream[0] {
            TokenTree::Punct { span, .. } => *span,
            _ => panic!(),
        },
        _ => panic!(),
    };
    let e = parse_quote_call_generic(input).unwrap_err();
    assert_eq!(e.message, MISPLACED);
    assert_eq!(e.span, last_hash);
}

#[test]
fn marked_calls_in_macro_bodies_are_left_alone() {
    let text = "println!(\"{}\", #[call_generic] f());";
    assert_eq!(rewrite(text), Ok(norm(text)));
}

#[test]
fn law_unmarked_calls_unchanged_example() {
    let text = "fn f() { #[inline] g(); x.call_generic(); call_generic(); }";
    assert_eq!(rewrite(text), Ok(norm(text)));
}

#[test]
fn law_marked_call_follows_flavour_example() {
    let rewritten = parse_quote_call_generic(lex("#[call_generic] f(x)")).unwrap();
    let mut sync = DesugarIfAsync { is_async: false };
    let mut asyn = DesugarIfAsync { is_async: true };
    let copy: Vec<TokenTree> = rewritten.iter().map(async_generic::token::copy_tree).collect();
    assert_eq!(render_tokens(&sync.desugar_if_async(rewritten)), norm("{ f(x) }"));
    assert_eq!(render_tokens(&asyn.desugar_if_async(copy)), norm("{ f_async(x).await }"));
}

#[test]
fn law_marked_method_call_follows_flavour_example() {
    let rewritten = parse_quote_call_generic(lex("#[call_generic] s.m(x)")).unwrap();
    let copy: Vec<TokenTree> = rewritten.iter().map(async_generic::token::copy_tree).collect();
    let mut sync = DesugarIfAsync { is_async: false };
    let mut asyn = DesugarIfAsync { is_async: true };
    assert_eq!(render_tokens(&sync.desugar_if_async(rewritten)), norm("{ s.m(x) }"));
    assert_eq!(render_tokens(&asyn.desugar_if_async(copy)), norm("{ s.m_async(x).await }"));
}

#[test]
fn renamed_identifier_keeps_its_span() {
    let input = lex("#[call_generic] f()");
    let f_span = match &input[2] {
        TokenTree::Ident { span, .. } => *span,
        _ => panic!(),
    };
    let out = parse_quote_call_generic(input).unwrap();
    match &out[2] {
        TokenTree::Group { stream, span, .. } => {
            assert_eq!(*span, 0);
            match &stream[0] {
                TokenTree::Ident { name, span } => {
                    assert_eq!(name, "f_async");
                    assert_eq!(*span, f_span);
                }
                _ => panic!(),
            }
        }
        _ => panic!(),
    }
}
