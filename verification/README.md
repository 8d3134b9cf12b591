# cpc

The front end of the CP language (TypeScript-like syntax, actors, compiled to
Zig), written in Verus: the functions of the library carry contracts that
Verus proves; two calls sit behind small wrappers whose contracts are trusted:
`String::push` (`src/text.rs`) and the reading of a string member of a JSON
text with `serde_json` (`src/resolver.rs`).

## Layout

- `src/lexer.rs`: the lexer, for the two dialects of the language (the
  classic `cp` front end and `cpc`); its tokens are proved to be exactly the
  tokens that the spec scanner reads from the text.
- `src/ast.rs`: the syntax tree and its mathematical model.
- `src/grammar.rs`, `src/parser.rs`: the `cpc` grammar as spec functions and
  the parser proved to build what the grammar describes.
- `src/sema.rs`: scopes, name resolution and type inference, proved against a
  spec analyzer.
- `src/dcp.rs`: the type-definition (`.d.cp`) emitter.
- `src/round_trip.rs`: the law that an emitted signature lexes and parses back
  to the same signature.
- `src/lsp.rs`: positions, hover texts, completions and document analysis of
  the language server.
- `src/resolver.rs`: the decisions of import resolution (search paths, the
  order in which imported files are walked, what is collected).
- `src/classic/`: the classic front end: its grammar, parser, semantic
  analysis (duplicate names, interfaces) and language-server logic.
- `app/`: the command-line program and the language server, which do the file
  and network input and output around the library.
- `tests/`: tests of the library.
