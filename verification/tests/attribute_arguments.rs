use async_generic::arguments::AsyncGenericAttributeArgs;
use async_generic::render::render_tokens;
use async_generic::{Delimiter, TokenTree};
use std::str::FromStr;

fn convert(ts: proc_macro2::TokenStream, next: &mut u64) -> Vec<TokenTree> {
    let mut out = Vec::new();
    for tt in ts {
        *next += 1;
        let span = *next;
        out.push(match tt {
            proc_macro2::TokenTree::Ident(i) => TokenTree::Ident { name: i.to_string(), span },
            proc_macro2::TokenTree::Punct(p) => TokenTree::Punct {
                ch: p.as_char(),
                joint: p.spacing() == proc_macro2::Spacing::Joint,
                span,
            },
            proc_macro2::TokenTree::Literal(l) => TokenTree::Literal { text: l.to_string(), span },
            proc_macro2::TokenTree::Group(g) => TokenTree::Group {
                delimiter: match g.delimiter() {
                    proc_macro2::Delimiter::Parenthesis => Delimiter::Parenthesis,
                    proc_macro2::Delimiter::Brace => Delimiter::Brace,
                    proc_macro2::Delimiter::Bracket => Delimiter::Bracket,
                    proc_macro2::Delimiter::None => Delimiter::Invisible,
                },
                stream: convert(g.stream(), next),
                span,
            },
        });
    }
    out
}

fn lex(text: &str) -> Vec<TokenTree> {
    let mut next = 0;
    convert(proc_macro2::TokenStream::from_str(text).unwrap(), &mut next)
}

fn norm(text: &str) -> String {
    render_tokens(&lex(text))
}

fn parse(text: &str) -> Result<(Option<String>, Option<String>, Option<String>), String> {
    match AsyncGenericAttributeArgs::parse(&lex(text)) {
        Ok(a) => Ok((
            a.async_signature.map(|v| render_tokens(&v)),
            a.sync_cfg.map(|v| render_tokens(&v)),
            a.async_cfg.map(|v| render_tokens(&v)),
        )),
        Err(e) => Err(e.message),
    }
}

#[test]
fn sync_only() {
    assert_eq!(
        parse("sync_cfg(target_family = \"wasm\")"),
        Ok((None, Some(norm("target_family = \"wasm\"")), None))
    );
}

#[test]
fn async_only() {
    assert_eq!(
        parse("async_cfg(target_family = \"wasm\")"),
        Ok((None, None, Some(norm("target_family = \"wasm\""))))
    );
}

#[test]
fn all_three_with_trailing_comma() {
    assert_eq!(
        parse("async_signature(x: u8) -> u8, sync_cfg(a), async_cfg(b),"),
        Err("expected `,`".to_string())
    );
    assert_eq!(
        parse("async_signature(x: u8), sync_cfg(a), async_cfg(b),"),
        Ok((Some(norm("x: u8")), Some(norm("a")), Some(norm("b"))))
    );
}

#[test]
fn no_arguments() {
    assert_eq!(parse(""), Ok((None, None, None)));
}

#[test]
fn invalid_name() {
    let input = lex("foo(x)");
    let span = match &input[0] {
        TokenTree::Ident { span, .. } => *span,
        _ => panic!(),
    };
    let e = AsyncGenericAttributeArgs::parse(&input).err().unwrap();
    assert_eq!(
        e.message,
        "invalid argument for async_generic. valid arguments: async_signature, sync_cfg, async_cfg"
    );
    assert_eq!(e.span, span);
}

#[test]
fn duplicate_name() {
    let input = lex("sync_cfg(a), sync_cfg(b)");
    let span = match &input[3] {
        TokenTree::Ident { span, .. } => *span,
        _ => panic!(),
    };
    let e = AsyncGenericAttributeArgs::parse(&input).err().unwrap();
    assert_eq!(e.message, "duplicate async_generic argument");
    assert_eq!(e.span, span);
}

#[test]
fn syntax_errors_come_before_duplicates() {
    assert_eq!(parse("sync_cfg(a), sync_cfg(b), 5"), Err("expected identifier".to_string()));
}

#[test]
fn parentheses_are_required() {
    assert_eq!(parse("sync_cfg"), Err("unexpected end of input, expected parentheses".to_string()));
    assert_eq!(parse("sync_cfg[a]"), Err("expected parentheses".to_string()));
    assert_eq!(parse("sync_cfg(a) async_cfg(b)"), Err("expected `,`".to_string()));
    assert_eq!(parse(", sync_cfg(a)"), Err("expected identifier".to_string()));
}

#[test]
fn keyword_is_no_name() {
    let e = parse("fn(a)").unwrap_err();
    assert!(e.starts_with("expected identifier"), "{}", e);
}

#[test]
fn keywords_and_underscore_are_no_names() {
    let input = lex("sync_cfg(a), _(b)");
    let e = AsyncGenericAttributeArgs::parse(&input).err().unwrap();
    assert_eq!(e.message, "expected identifier, found keyword `_`");
    match &input[3] {
        TokenTree::Ident { span, .. } => assert_eq!(e.span, *span),
        _ => panic!(),
    }
    assert_eq!(parse("fn(a)"), Err("expected identifier, found keyword `fn`".to_string()));
    // a raw identifier is a name, and no valid one
    assert_eq!(
        parse("r#fn(a)"),
        Err("invalid argument for async_generic. valid arguments: async_signature, sync_cfg, async_cfg".to_string())
    );
}

#[test]
fn law_argument_order_does_not_matter_example() {
    let expected = Ok((Some(norm("x: u8")), Some(norm("a")), Some(norm("b"))));
    for text in [
        "async_signature(x: u8), sync_cfg(a), async_cfg(b)",
        "async_cfg(b), async_signature(x: u8), sync_cfg(a)",
        "sync_cfg(a), async_cfg(b), async_signature(x: u8),",
    ] {
        assert_eq!(parse(text), expected);
    }
}

#[test]
fn law_written_arguments_in_any_order_example() {
    assert_eq!(parse("async_cfg(b), sync_cfg(a),"), parse("sync_cfg(a), async_cfg(b),"));
    assert_eq!(parse("async_cfg(b), sync_cfg(a),"), Ok((None, Some(norm("a")), Some(norm("b")))));
}
