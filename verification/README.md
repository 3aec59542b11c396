# macro_workshop

The decision logic of four procedural macros, verified with Verus:

- a `Builder` derive (`src/builder.rs`): which setters a struct's builder gets,
  read from field types and `#[builder(each = "...")]` attributes;
- a `CustomDebug` derive (`src/debug_derive.rs`): per-field formats from
  `#[debug = "..."]` and the `Debug` bounds the generics need;
- `seq!` (`src/seq_parse.rs`, `src/seq_macro.rs`): the invocation
  `N in a..b { body }` read from its tokens, then repetition of the body over
  the integer range, with `#( ... )*` sections and `~` identifier pasting;
- `#[sorted]` (`src/sorted.rs`): order checks of enum variants and of match
  arms.

The library works on plain models (`src/tokens.rs`, `src/types.rs`): token
trees with span handles, types with their path segments, attributes.
Identifiers, string and integer literals are read character by character in
`src/text.rs`; only the Unicode XID tables come from `unicode-ident`. `app/`
is the front end: it parses Rust syntax with `syn`, converts it into these
models, calls the library and renders its answers with `quote`.
