//! The Rust grammar of `syn`, asked whether source text is well formed.
//!
//! The macro accepts a function item and a replacement signature only where
//! `syn` parses them. Each item below hands a piece of source text to one
//! parser of `syn` and gives back `None` when the whole text parses, or the
//! message of `syn`'s error. Nothing is promised of the answer: `syn` lexes
//! the text through `proc_macro2`, which picks at run time the compiler's
//! lexer inside a procedural macro or its own lexer elsewhere, and the two
//! may answer differently. The functions that ask take the answers as they
//! come and say what they do for every answer.
use vstd::prelude::*;
use syn::parse::Parser;

verus! {

/// The error message of an optional error, as text.
pub open spec fn message_view(r: Option<String>) -> Option<Seq<char>> {
    match r {
        Some(m) => Some(m@),
        None => None,
    }
}

/// Calls `syn::parse_str::<syn::ItemFn>` on `text`: `None` when it parses,
/// else the message of the error. The contract promises nothing of it.
#[verifier::external_body]
pub(crate) fn reject_item_fn(text: &str) -> (r: Option<String>) {
    match syn::parse_str::<syn::ItemFn>(text) {
        Ok(_) => None,
        Err(e) => Some(e.to_string()),
    }
}

/// Calls `syn::parse_str::<syn::Generics>` on `text`: `None` when it parses,
/// else the message of the error. The contract promises nothing of it.
#[verifier::external_body]
pub(crate) fn reject_generics(text: &str) -> (r: Option<String>) {
    match syn::parse_str::<syn::Generics>(text) {
        Ok(_) => None,
        Err(e) => Some(e.to_string()),
    }
}

/// Calls `Punctuated::<syn::FnArg, syn::token::Comma>::parse_terminated`
/// through `syn::parse::Parser::parse_str` on `text`: `None` when it parses,
/// else the message of the error. The contract promises nothing of it.
#[verifier::external_body]
pub(crate) fn reject_fn_args(text: &str) -> (r: Option<String>) {
    let parser = syn::punctuated::Punctuated::<syn::FnArg, syn::token::Comma>::parse_terminated;
    match parser.parse_str(text) {
        Ok(_) => None,
        Err(e) => Some(e.to_string()),
    }
}

/// Calls `syn::parse_str::<syn::ReturnType>` on `text`: `None` when it
/// parses, else the message of the error. The contract promises nothing of
/// it.
#[verifier::external_body]
pub(crate) fn reject_return_type(text: &str) -> (r: Option<String>) {
    match syn::parse_str::<syn::ReturnType>(text) {
        Ok(_) => None,
        Err(e) => Some(e.to_string()),
    }
}

/// Calls `syn::parse_str::<syn::WhereClause>` on `text`: `None` when it
/// parses, else the message of the error. The contract promises nothing of
/// it.
#[verifier::external_body]
pub(crate) fn reject_where_clause(text: &str) -> (r: Option<String>) {
    match syn::parse_str::<syn::WhereClause>(text) {
        Ok(_) => None,
        Err(e) => Some(e.to_string()),
    }
}

} // verus!
