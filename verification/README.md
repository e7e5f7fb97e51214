# async_generic

Write code that can be both async and synchronous without duplicating it.

`#[async_generic]` turns one function into two flavours: the function as
written, and an async one named with the suffix `_async`. Inside the function,
`if _async { .. } else { .. }` and `if _sync { .. } else { .. }` keep only the
branch of each flavour, and an `async_signature(..)` argument gives the async
flavour other parameters, generics or return type. `sync_cfg(..)` and
`async_cfg(..)` put a `#[cfg(..)]` attribute on the synchronous or the async
flavour. Inside the function, `#[call_generic]` marks a call whose callee comes
in both flavours: each flavour calls the matching one (`.await`ing the async
one).

## Layout

- `src/` is the verified library. It works on a model of the macro's tokens
  (`token`) and gives back the tokens of the expansion, or an error with the
  span id of the token it concerns. Every function there carries a contract
  that Verus checks; the public proof functions whose names start with `law_`
  state properties of the expansion as a whole.
  - `desugar_if_async`: replacing the `if _async` / `if _sync` expressions.
  - `call_generic`: rewriting calls marked with `#[call_generic]`.
  - `args`, `arguments`: the attribute's arguments.
  - `expand`: the two flavours of a function.
  - `syntax`: the few questions put to `syn`'s Rust grammar. Their answers
    depend on the lexer `proc_macro2` picks at run time, so nothing is
    promised of them: the functions that ask say what they do for every
    answer, and `from_checks` / `from_checked` take the answers as arguments.
- `app/` converts between `proc_macro2` token streams and the token model,
  keeping the spans, and turns an error into a `compile_error!`.
- `tests/` runs the expansion on concrete functions.
