//! The error that the macro reports instead of expanding.
use vstd::prelude::*;

verus! {

/// A message for the compiler, at the token with span id `span`.
#[derive(Debug)]
pub struct MacroError {
    pub message: String,
    pub span: u64,
}

/// The value of an error: its message as text, and its span id.
pub open spec fn error_view(e: MacroError) -> (Seq<char>, u64) {
    (e.message@, e.span)
}

/// A new error with the message `message`.
pub fn macro_error(message: &str, span: u64) -> (e: MacroError)
    ensures
        error_view(e) == (message@, span),
{
    MacroError { message: String::from_str(message), span }
}

} // verus!
