//! Write code that can be both async and synchronous without duplicating it.
//!
//! `#[async_generic]` turns one function into two flavours: the function as
//! written, and an async one named with the suffix `_async`. Inside it,
//! `if _async { .. } else { .. }` and `if _sync { .. } else { .. }` blocks
//! keep only the branch of each flavour, and `#[call_generic]` marks a call
//! whose callee comes in both flavours.
//!
//! The library works on a token model of the macro's input (`token`) and
//! gives back the tokens of the expansion or an error.
pub mod token;
pub mod render;
pub mod syntax;
pub mod error;
pub mod grammar;
pub mod desugar_if_async;
pub mod args;
pub mod arguments;
pub mod call_generic;
pub mod expand;

pub use expand::async_generic;
pub use call_generic::parse_quote_call_generic;
pub use desugar_if_async::DesugarIfAsync;
pub use arguments::AsyncGenericAttributeArgs;
pub use error::MacroError;
pub use token::{Delimiter, TokenTree, CALL_SITE};
