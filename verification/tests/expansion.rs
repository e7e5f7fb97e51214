use async_generic::args::{Args, SignatureChecks};
use async_generic::desugar_if_async::DesugarIfAsync;
use async_generic::expand::{convert_sync_async, Item};
use async_generic::render::render_tokens;
use async_generic::{async_generic, Delimiter, TokenTree};
use std::str::FromStr;

fn convert(ts: proc_macro2::TokenStream) -> Vec<TokenTree> {
    let mut out = Vec::new();
    for tt in ts {
        out.push(match tt {
            proc_macro2::TokenTree::Ident(i) => TokenTree::Ident { name: i.to_string(), span: 1 },
            proc_macro2::TokenTree::Punct(p) => TokenTree::Punct {
                ch: p.as_char(),
                joint: p.spacing() == proc_macro2::Spacing::Joint,
                span: 1,
            },
            proc_macro2::TokenTree::Literal(l) => TokenTree::Literal { text: l.to_string(), span: 1 },
            proc_macro2::TokenTree::Group(g) => TokenTree::Group {
                delimiter: match g.delimiter() {
                    proc_macro2::Delimiter::Parenthesis => Delimiter::Parenthesis,
                    proc_macro2::Delimiter::Brace => Delimiter::Brace,
                    proc_macro2::Delimiter::Bracket => Delimiter::Bracket,
                    proc_macro2::Delimiter::None => Delimiter::Invisible,
                },
                stream: convert(g.stream()),
                span: 1,
            },
        });
    }
    out
}

fn lex(text: &str) -> Vec<TokenTree> {
    convert(proc_macro2::TokenStream::from_str(text).unwrap())
}

fn norm(text: &str) -> String {
    render_tokens(&lex(text))
}

fn expand(args: &str, item: &str) -> Result<String, String> {
    match async_generic(lex(args), lex(item)) {
        Ok(v) => Ok(render_tokens(&v)),
        Err(e) => Err(e.message),
    }
}

fn desugar(is_async: bool, text: &str) -> String {
    let mut d = DesugarIfAsync { is_async };
    render_tokens(&d.desugar_if_async(lex(text)))
}

const GENERIC_FN: &str = r#"
fn do_stuff() -> String {
    if _async {
        my_async_stuff().await
    } else {
        "not async".to_owned()
    }
}"#;

#[test]
fn tests() {
    // pass: generic-fn
    assert_eq!(
        expand("", GENERIC_FN),
        Ok(norm(
            r#"fn do_stuff() -> String { { "not async".to_owned() } }
               async fn do_stuff_async() -> String { { my_async_stuff().await } }"#
        ))
    );
    // pass: generic-fn-with-visibility
    assert_eq!(
        expand(
            "",
            r#"pub fn do_stuff() -> String { if _async { my_async_stuff().await } else { "not async".to_owned() } }"#
        ),
        Ok(norm(
            r#"pub fn do_stuff() -> String { { "not async".to_owned() } }
               pub async fn do_stuff_async() -> String { { my_async_stuff().await } }"#
        ))
    );
    // pass: struct-method-generic
    assert_eq!(
        expand(
            "",
            r#"fn do_stuff(&self) -> String { if _async { self.my_async_stuff().await } else { "not async".to_owned() } }"#
        ),
        Ok(norm(
            r#"fn do_stuff(&self) -> String { { "not async".to_owned() } }
               async fn do_stuff_async(&self) -> String { { self.my_async_stuff().await } }"#
        ))
    );
    // pass: fun-with-types
    assert_eq!(
        expand(
            "async_signature(thing: &AsyncThing) -> i64",
            "fn do_other_stuff(thing: &SyncThing) -> i32 { if _async { thing.do_other_stuff().await } else { thing.do_other_stuff() } }"
        ),
        Ok(norm(
            "fn do_other_stuff(thing: &SyncThing) -> i32 { { thing.do_other_stuff() } }
             async fn do_other_stuff_async(thing: &AsyncThing) -> i64 { { thing.do_other_stuff().await } }"
        ))
    );
    assert_eq!(
        expand(
            "async_signature<G: AsyncGeneric>(thing: &AsyncThing, g: G) -> G::AsyncOutput",
            "fn do_generic_stuff<G: SyncGeneric>(thing: &SyncThing, g: G) -> G::SyncOutput { if _async { thing.do_generic_stuff(g).await } else { thing.do_generic_stuff(g) } }"
        ),
        Ok(norm(
            "fn do_generic_stuff<G: SyncGeneric>(thing: &SyncThing, g: G) -> G::SyncOutput { { thing.do_generic_stuff(g) } }
             async fn do_generic_stuff_async<G: AsyncGeneric>(thing: &AsyncThing, g: G) -> G::AsyncOutput { { thing.do_generic_stuff(g).await } }"
        ))
    );
    // fail: misuse-of-underscore-async (left as it is, `_async` stays undefined)
    let misuse = r#"fn do_stuff() -> String { if _async && true { unreachable!(); } else { "not async".to_owned() } }"#;
    assert_eq!(
        expand("", misuse),
        Ok(norm(&format!(
            "{} {}",
            misuse,
            r#"async fn do_stuff_async() -> String { if _async && true { unreachable!(); } else { "not async".to_owned() } }"#
        )))
    );
    // fail: no-async-fn
    assert_eq!(
        expand("", "async fn do_some_stuff() -> bool { true }"),
        Err("an async_generic function should not be declared as async".to_string())
    );
    // fail: no-trait, no-impl, no-struct
    assert_eq!(
        expand("", "trait Trait { fn do_stuff() {} }"),
        Err("async_generic can only be used with functions".to_string())
    );
    assert_eq!(
        expand("", "impl Struct { fn do_stuff() {} }"),
        Err("async_generic can only be used with functions".to_string())
    );
    assert_eq!(
        expand("", "struct Struct { a: u8 }"),
        Err("async_generic can only be used with functions".to_string())
    );
    // an argument of another name
    assert_eq!(
        expand("target_family(wasm)", GENERIC_FN),
        Err("async_generic can only take a async_signature argument".to_string())
    );
}

#[test]
fn async_signature_with_parameters_only() {
    // pass: fun-with-types
    assert_eq!(
        expand(
            "async_signature(thing: &AsyncThing)",
            "fn do_stuff(thing: &SyncThing) -> String { if _async { thing.do_stuff().await } else { thing.do_stuff() } }"
        ),
        Ok(norm(
            "fn do_stuff(thing: &SyncThing) -> String { { thing.do_stuff() } }
             async fn do_stuff_async(thing: &AsyncThing) -> String { { thing.do_stuff().await } }"
        ))
    );
}

#[test]
fn sync_cfg_gates_the_sync_flavour() {
    // pass: async-only
    assert_eq!(
        expand(
            "sync_cfg(target_family = \"wasm\")",
            "fn do_stuff(thing: &AsyncThing) -> String { if _async { thing.do_stuff().await } else { thing.do_stuff() } }"
        ),
        Ok(norm(
            "#[cfg(target_family = \"wasm\")] fn do_stuff(thing: &AsyncThing) -> String { { thing.do_stuff() } }
             async fn do_stuff_async(thing: &AsyncThing) -> String { { thing.do_stuff().await } }"
        ))
    );
}

#[test]
fn async_cfg_gates_the_async_flavour() {
    // pass: sync-only
    assert_eq!(
        expand(
            "async_cfg(target_family = \"wasm\")",
            "fn do_stuff(thing: &SyncThing) -> String { if _async { thing.do_stuff().await } else { thing.do_stuff() } }"
        ),
        Ok(norm(
            "fn do_stuff(thing: &SyncThing) -> String { { thing.do_stuff() } }
             #[cfg(target_family = \"wasm\")] async fn do_stuff_async(thing: &SyncThing) -> String { { thing.do_stuff().await } }"
        ))
    );
}

#[test]
fn named_arguments_combine() {
    assert_eq!(
        expand("async_cfg(a), async_signature(x: u16), sync_cfg(b),", "fn f(x: u8) {}"),
        Ok(norm("#[cfg(b)] fn f(x: u8) {} #[cfg(a)] async fn f_async(x: u16) {}"))
    );
    assert_eq!(
        expand("sync_cfg(a), sync_cfg(b)", "fn f() {}"),
        Err("duplicate async_generic argument".to_string())
    );
    // the parameters of a named `async_signature` must parse
    assert!(expand("async_signature(x u8), sync_cfg(a)", "fn f() {}").is_err());
}

#[test]
fn generic_calls_follow_the_flavour() {
    // pass: generic-call
    assert_eq!(
        expand("", "fn do_stuff() -> String { #[call_generic] do_nested_stuff() }"),
        Ok(norm(
            "fn do_stuff() -> String { { do_nested_stuff() } }
             async fn do_stuff_async() -> String { { do_nested_stuff_async().await } }"
        ))
    );
    assert_eq!(
        expand("", "fn stuff(&self) -> String { #[call_generic] self.nested_stuff() }"),
        Ok(norm(
            "fn stuff(&self) -> String { { self.nested_stuff() } }
             async fn stuff_async(&self) -> String { { self.nested_stuff_async().await } }"
        ))
    );
    // fail: generic-call-invalid-usage
    assert_eq!(
        expand("", "fn do_stuff() -> String { #[call_generic] \"not a function call or method call\" }"),
        Err("call_generic must be used on a method call or a function call.".to_string())
    );
}

#[test]
fn sync_flavour_comes_first_then_async_flavour() {
    let out = expand("", "fn f() -> u8 { 1 }").unwrap();
    assert_eq!(out, norm("fn f() -> u8 { 1 } async fn f_async() -> u8 { 1 }"));
}

#[test]
fn async_goes_after_const_and_before_unsafe_or_extern() {
    assert_eq!(
        expand("", "pub const unsafe fn f() {}").unwrap(),
        norm("pub const unsafe fn f() {} pub const async unsafe fn f_async() {}")
    );
    assert_eq!(
        expand("", "pub(crate) unsafe extern \"C\" fn f() {}").unwrap(),
        norm("pub(crate) unsafe extern \"C\" fn f() {} pub(crate) async unsafe extern \"C\" fn f_async() {}")
    );
    assert_eq!(
        expand("", "extern \"C\" fn f() {}").unwrap(),
        norm("extern \"C\" fn f() {} async extern \"C\" fn f_async() {}")
    );
}

#[test]
fn attributes_stay_on_both_flavours() {
    assert_eq!(
        expand("", "#[inline] #[doc = \"x\"] fn f() {}").unwrap(),
        norm("#[inline] #[doc = \"x\"] fn f() {} #[inline] #[doc = \"x\"] async fn f_async() {}")
    );
}

#[test]
fn async_signature_replaces_only_what_it_gives() {
    // parameters only: generics, return type and where clause stay
    assert_eq!(
        expand("async_signature(x: u16)", "fn f<T>(x: u8) -> T where T: Default { T::default() }").unwrap(),
        norm("fn f<T>(x: u8) -> T where T: Default { T::default() }
              async fn f_async<T>(x: u16) -> T where T: Default { T::default() }")
    );
    // a where clause alone replaces the generics: the parameters go
    assert_eq!(
        expand("async_signature(x: u16) where u16: Copy", "fn f<T>(x: u8) -> T where T: Default { T::default() }").unwrap(),
        norm("fn f<T>(x: u8) -> T where T: Default { T::default() }
              async fn f_async(x: u16) -> T where u16: Copy { T::default() }")
    );
    // new generics without a where clause drop the old where clause
    assert_eq!(
        expand("async_signature<U>(x: U) -> U", "fn f<T>(x: T) -> T where T: Copy { x }").unwrap(),
        norm("fn f<T>(x: T) -> T where T: Copy { x }
              async fn f_async<U>(x: U) -> U { x }")
    );
    // an empty parameter list
    assert_eq!(
        expand("async_signature()", "fn f(x: u8) {}").unwrap(),
        norm("fn f(x: u8) {} async fn f_async() {}")
    );
    // `<>` and a bare `where` write nothing
    assert_eq!(
        expand("async_signature<>() where", "fn f<T>(x: T) {}").unwrap(),
        norm("fn f<T>(x: T) {} async fn f_async() {}")
    );
}

#[test]
fn async_signature_with_arrow_inside_generics() {
    assert_eq!(
        expand("async_signature<F: Fn() -> u8>(f: F) -> u8", "fn g(x: u8) -> u8 { x }").unwrap(),
        norm("fn g(x: u8) -> u8 { x } async fn g_async<F: Fn() -> u8>(f: F) -> u8 { x }")
    );
}

#[test]
fn argument_errors() {
    assert_eq!(
        expand("\"async_signature\"(x: u8)", GENERIC_FN),
        Err("expected identifier".to_string())
    );
    assert_eq!(
        expand("async_signature", GENERIC_FN),
        Err("unexpected end of input, expected parentheses".to_string())
    );
    assert_eq!(
        expand("async_signature[x: u8]", GENERIC_FN),
        Err("expected parentheses".to_string())
    );
    assert_eq!(
        expand("async_signature(x: u8) y", GENERIC_FN),
        Err("unexpected token".to_string())
    );
}

#[test]
fn argument_errors_from_the_rust_grammar() {
    // a keyword is no identifier
    let e = expand("fn(x: u8)", GENERIC_FN).unwrap_err();
    assert!(e.starts_with("expected identifier"), "{}", e);
    // parameters, generics, return type and where clause must parse
    assert!(expand("async_signature(x u8)", GENERIC_FN).is_err());
    assert!(expand("async_signature<T: +>(x: T)", GENERIC_FN).is_err());
    assert!(expand("async_signature(x: u8) -> +", GENERIC_FN).is_err());
    assert!(expand("async_signature(x: u8) where +", GENERIC_FN).is_err());
    assert!(expand("async_signature(x: u8) where T: Copy", GENERIC_FN).is_ok());
}

#[test]
fn item_must_parse_as_a_function() {
    assert_eq!(
        expand("", "fn f(x) {}").unwrap_err(),
        "async_generic can only be used with functions"
    );
    assert_eq!(
        expand("", "fn f() -> {}").unwrap_err(),
        "async_generic can only be used with functions"
    );
}

#[test]
fn if_sync_is_the_mirror_of_if_async() {
    let text = "fn f() { if _sync { a() } else { b().await } }";
    assert_eq!(
        expand("", text).unwrap(),
        norm("fn f() { { a() } } async fn f_async() { { b().await } }")
    );
}

#[test]
fn branch_without_else_becomes_an_empty_block() {
    assert_eq!(desugar(true, "if _async { a(); }"), norm("{ a(); }"));
    assert_eq!(desugar(false, "if _async { a(); }"), norm("{}"));
    assert_eq!(desugar(true, "if _sync { a(); }"), norm("{}"));
    assert_eq!(desugar(false, "if _sync { a(); }"), norm("{ a(); }"));
}

#[test]
fn else_if_chains() {
    let text = "if _async { a } else if c { b } else { d } e";
    assert_eq!(desugar(true, text), norm("{ a } e"));
    assert_eq!(desugar(false, text), norm("if c { b } else { d } e"));
    let text = "if c { b } else if _async { a } else { d }";
    assert_eq!(desugar(true, text), norm("if c { b } else { a }"));
    assert_eq!(desugar(false, text), norm("if c { b } else { d }"));
    let text = "if _async { a } else if _sync { b } else { c }";
    assert_eq!(desugar(true, text), norm("{ a }"));
    assert_eq!(desugar(false, text), norm("{ b }"));
}

#[test]
fn nested_markers_are_replaced_inner_first() {
    let text = "if _async { if _sync { x } else { y } } else { z }";
    assert_eq!(desugar(true, text), norm("{ { y } }"));
    assert_eq!(desugar(false, text), norm("{ z }"));
    let text = "fn f() { let v = (if _async { 1 } else { 2 }) + g(if _sync { 3 } else { 4 }); }";
    assert_eq!(desugar(true, text), norm("fn f() { let v = ({ 1 }) + g({ 4 }); }"));
    assert_eq!(desugar(false, text), norm("fn f() { let v = ({ 2 }) + g({ 3 }); }"));
}

#[test]
fn macro_bodies_are_left_alone() {
    let text = "println!(\"{}\", if _async { 1 } else { 2 }); m::n!{ if _sync { 3 } } macro_rules! q { () => { if _async {} } }";
    assert_eq!(desugar(true, text), norm(text));
    // `if !(..)` is no macro invocation
    assert_eq!(desugar(true, "if !(if _async { a } else { b }) {}"), norm("if !({ a }) {}"));
}

#[test]
fn marker_must_stand_alone_before_the_block() {
    for text in [
        "if _async && true { a } else { b }",
        "if (_async) { a } else { b }",
        "if _async.x { a } else { b }",
        "if async_ { a } else { b }",
    ] {
        assert_eq!(desugar(true, text), norm(text));
        assert_eq!(desugar(false, text), norm(text));
    }
}

#[test]
fn law_unmarked_tokens_unchanged_example() {
    let text = "fn f(x: u8) -> u8 { if x > 1 { x } else { async_fn(sync) } }";
    assert_eq!(desugar(true, text), norm(text));
    assert_eq!(desugar(false, text), norm(text));
}

#[test]
fn law_marker_selects_branch_example() {
    assert_eq!(desugar(true, "if _async { 1 } else { 2 }"), norm("{ 1 }"));
    assert_eq!(desugar(false, "if _async { 1 } else { 2 }"), norm("{ 2 }"));
    assert_eq!(desugar(true, "if _sync { 1 } else { 2 }"), norm("{ 2 }"));
    assert_eq!(desugar(false, "if _sync { 1 } else { 2 }"), norm("{ 1 }"));
}

#[test]
fn law_async_flavour_is_async_and_renamed_example() {
    let out = async_generic(Vec::new(), lex("pub fn compute(x: u8) -> u8 { x }")).unwrap();
    let n = lex("pub fn compute(x: u8) -> u8 { x }").len();
    match &out[n + 1] {
        TokenTree::Ident { name, span } => {
            assert_eq!(name, "async");
            assert_eq!(*span, 0);
        }
        _ => panic!("expected `async`"),
    }
    match &out[n + 3] {
        TokenTree::Ident { name, span } => {
            assert_eq!(name, "compute_async");
            assert_eq!(*span, 0);
        }
        _ => panic!("expected the name"),
    }
}

#[test]
fn law_unmarked_function_kept_as_sync_flavour_example() {
    let item = "fn add(a: u8, b: u8) -> u8 { a + b }";
    let out = async_generic(Vec::new(), lex(item)).unwrap();
    let n = lex(item).len();
    let head: Vec<TokenTree> = out[..n].iter().map(copy).collect();
    assert_eq!(render_tokens(&head), norm(item));
}

#[test]
fn spans_are_kept_for_input_tokens() {
    let out = async_generic(Vec::new(), lex("fn f(x: u8) {}")).unwrap();
    match &out[0] {
        TokenTree::Ident { name, span } => {
            assert_eq!(name, "fn");
            assert_eq!(*span, 1);
        }
        _ => panic!(),
    }
}

#[test]
fn desugar_keeps_the_flavour() {
    let mut d = DesugarIfAsync { is_async: true };
    let _ = d.desugar_if_async(lex("if _async {}"));
    assert!(d.is_async);
}

fn copy(t: &TokenTree) -> TokenTree {
    async_generic::token::copy_tree(t)
}

#[test]
fn law_desugar_flavours_mirror_example() {
    let text = "if _async { a } else { f(_sync) } if _sync { g(_async) }";
    let mirrored = "if _sync { a } else { f(_async) } if _async { g(_sync) }";
    assert_eq!(desugar(false, text), norm("{ f(_sync) } { g(_async) }"));
    assert_eq!(desugar(true, mirrored), norm("{ f(_async) } { g(_sync) }"));
    assert_eq!(desugar(true, text), norm("{ a } {}"));
    assert_eq!(desugar(false, mirrored), norm("{ a } {}"));
}

#[test]
fn law_flavours_differ_only_in_async_and_name_example() {
    let item = "#[inline] pub(crate) const fn scale<T: Copy>(x: T, k: u8) -> T where T: Clone { x }";
    assert_eq!(
        expand("", item).unwrap(),
        norm(&format!(
            "{} #[inline] pub(crate) const async fn scale_async<T: Copy>(x: T, k: u8) -> T where T: Clone {{ x }}",
            item
        ))
    );
}

fn render_result(r: Result<Args, async_generic::MacroError>) -> Result<String, String> {
    match r {
        Ok(a) => {
            let mut s = String::new();
            if let Some(g) = &a.generics {
                s.push_str(&render_tokens(&g.params));
                s.push('|');
                s.push_str(&render_tokens(&g.where_clause));
            }
            s.push('|');
            s.push_str(&render_tokens(&a.inputs));
            s.push('|');
            if let Some(o) = &a.output {
                s.push_str(&render_tokens(o));
            }
            Ok(s)
        }
        Err(e) => Err(e.message),
    }
}

fn no_checks() -> SignatureChecks {
    SignatureChecks {
        generics: None,
        inputs: None,
        output: None,
        where_clause: None,
    }
}

#[test]
fn given_signature_verdicts_decide() {
    let input = lex("async_signature<T>(x: T) -> T where T: Copy");
    // each verdict, where its part is present, is the error
    assert_eq!(
        render_result(Args::from_checks(&lex("fn(x: u8)"), &no_checks())),
        Err("expected identifier, found keyword `fn`".to_string())
    );
    let c = SignatureChecks { generics: Some("generics".to_string()), ..no_checks() };
    assert_eq!(render_result(Args::from_checks(&input, &c)), Err("generics".to_string()));
    let c = SignatureChecks { inputs: Some("inputs".to_string()), ..no_checks() };
    assert_eq!(render_result(Args::from_checks(&input, &c)), Err("inputs".to_string()));
    let c = SignatureChecks { output: Some("output".to_string()), ..no_checks() };
    assert_eq!(render_result(Args::from_checks(&input, &c)), Err("output".to_string()));
    let c = SignatureChecks { where_clause: Some("where".to_string()), ..no_checks() };
    assert_eq!(render_result(Args::from_checks(&input, &c)), Err("where".to_string()));
    // a verdict on a part that is absent is not consulted
    let c = SignatureChecks { output: Some("output".to_string()), ..no_checks() };
    assert_eq!(
        render_result(Args::from_checks(&lex("async_signature(x: u8)"), &c)),
        Ok(norm("") + "|" + &norm("x: u8") + "|")
    );
    // with no verdicts the parts are taken as they stand
    assert_eq!(
        render_result(Args::from_checks(&input, &no_checks())),
        Ok(norm("<T>") + "|" + &norm("where T: Copy") + "|" + &norm("x: T") + "|" + &norm("-> T"))
    );
    assert_eq!(
        render_result(Args::from_checks(&lex("async_signature(x u8)"), &no_checks())),
        Ok("|".to_string() + &norm("x u8") + "|")
    );
    // while `syn` itself refuses those parameters
    assert!(render_result(Args::parse(&lex("async_signature(x u8)"))).is_err());
}

#[test]
fn given_item_verdict_decides() {
    let e = Item::from_checked(lex("fn f() {}"), Some("refused".to_string())).err().unwrap();
    assert_eq!(e.message, "async_generic can only be used with functions");
    let e = Item::from_checked(lex("struct S;"), None).err().unwrap();
    assert_eq!(e.message, "async_generic can only be used with functions");
    let e = Item::from_checked(lex("async fn f() {}"), None).err().unwrap();
    assert_eq!(e.message, "an async_generic function should not be declared as async");
    let item = Item::from_checked(lex("fn f() { if _async { a } else { b } }"), None).ok().unwrap();
    assert_eq!(render_tokens(&convert_sync_async(&item, false, None).ok().unwrap()), norm("fn f() { { b } }"));
    assert_eq!(
        render_tokens(&convert_sync_async(&item, true, None).ok().unwrap()),
        norm("async fn f_async() { { a } }")
    );
}

#[test]
fn law_sync_flavour_is_the_function_desugared_example() {
    let item = "fn f(x: u8) -> u8 { if _sync { x } else { x + 1 } }";
    let n = lex(&desugar(false, item)).len();
    for args in ["", "async_signature(x: u16) -> u16", "async_signature<T>(t: T)"] {
        let out = async_generic(lex(args), lex(item)).ok().unwrap();
        let head: Vec<TokenTree> = out[..n].iter().map(copy).collect();
        assert_eq!(render_tokens(&head), desugar(false, item));
    }
}

#[test]
fn law_async_signature_replaces_parameters_example() {
    let input = lex("pub fn f<T>(x: T) {}");
    let group_span = match &input[6] {
        TokenTree::Group { span, .. } => *span,
        _ => panic!(),
    };
    let n = input.len();
    let out = async_generic(lex("async_signature<U>(y: U, z: u8)"), input).ok().unwrap();
    // `pub async fn f_async < U >` comes first: the parameters follow at 3 + 3
    match &out[n + 1 + 3 + 3] {
        TokenTree::Group { delimiter, stream, span } => {
            assert_eq!(*delimiter, Delimiter::Parenthesis);
            assert_eq!(render_tokens(stream), norm("y: U, z: u8"));
            assert_eq!(*span, group_span);
        }
        _ => panic!("expected the parameters"),
    }
}

#[test]
fn else_if_conditions_with_blocks_end_at_their_block() {
    let text = "fn f() { if _async {a} else if let P { x } = p {b} }";
    assert_eq!(desugar(true, text), norm("fn f() { {a} }"));
    assert_eq!(desugar(false, text), norm("fn f() { if let P { x } = p {b} }"));
    assert_eq!(desugar(true, "if _async {} else if {} {}"), norm("{}"));
    let text = "if _async {a} else if match x { _ => true } {b} else {c} y();";
    assert_eq!(desugar(true, text), norm("{a} y();"));
    assert_eq!(desugar(false, text), norm("if match x { _ => true } {b} else {c} y();"));
    let text = "if _async {a} else if unsafe { g() } && h {b} x();";
    assert_eq!(desugar(true, text), norm("{a} x();"));
    let text = "if _sync {a} else if S { v } == w as S {b}; z";
    assert_eq!(desugar(false, text), norm("{a}; z"));
}

#[test]
fn law_desugar_is_idempotent_example() {
    for text in [
        "fn f() { if _async { a(if _sync { 1 } else { 2 }) } else if let P { x } = p { b } }",
        "fn g() { if _sync { x } let y = if _async { 1 } else { 2 }; }",
    ] {
        for a in [false, true] {
            let once = desugar(a, text);
            let mut d = DesugarIfAsync { is_async: a };
            let twice = render_tokens(&d.desugar_if_async(lex(&once)));
            assert_eq!(twice, once);
        }
    }
}

#[test]
fn law_cfg_arguments_gate_their_flavours_example() {
    let out = expand("async_cfg(feature = \"x\"), sync_cfg(not(feature = \"x\"))", "fn f() {}").unwrap();
    assert_eq!(
        out,
        norm("#[cfg(not(feature = \"x\"))] fn f() {} #[cfg(feature = \"x\")] async fn f_async() {}")
    );
}

#[test]
fn inner_attributes_of_the_body_are_dropped() {
    assert_eq!(
        expand("", "#[inline] fn f() { #![allow(unused)] //! inner doc\n let x = 1; }").unwrap(),
        norm("#[inline] fn f() { let x = 1; } #[inline] async fn f_async() { let x = 1; }")
    );
}

#[test]
fn unary_operators_after_a_block() {
    let text = "if _async {a} else if unsafe { g() } - 1 > 0 {b} y();";
    assert_eq!(desugar(true, text), norm("{a} y();"));
    let text = "if _async {a} else if c {b} *p = 3; q();";
    assert_eq!(desugar(true, text), norm("{a} *p = 3; q();"));
    assert_eq!(desugar(false, text), norm("if c {b} *p = 3; q();"));
}

#[test]
fn marker_paths_with_leading_colons_or_generic_arguments() {
    assert_eq!(desugar(true, "if ::_async { a() }"), norm("{ a() }"));
    assert_eq!(desugar(false, "if ::_async { a() }"), norm("{}"));
    assert_eq!(desugar(true, "if _async::<T> { a } else { b }"), norm("{ a }"));
    assert_eq!(desugar(false, "if ::_sync::<u8, Vec<u8>> { x } else { y } z"), norm("{ x } z"));
    // a path of two segments is no marker
    let text = "if m::_async { a } else { b }";
    assert_eq!(desugar(true, text), norm(text));
}

#[test]
fn law_desugar_is_idempotent_with_macro_bodies() {
    let text = "fn f() { println!(\"{}\", if _async { 1 } else { 2 }); if ::_sync::<u8> { m!(if _sync {}) } }";
    for a in [false, true] {
        let once = desugar(a, text);
        let mut d = DesugarIfAsync { is_async: a };
        let twice = render_tokens(&d.desugar_if_async(lex(&once)));
        assert_eq!(twice, once);
    }
}
