# dbms

The SQL front end of a small database: a tokenizer that splits a statement into
keywords, identifiers, literals and symbols, and a recursive-descent parser
that turns the tokens of a `CREATE`, `SELECT` or `INSERT` command into a syntax
tree. The library is verified with Verus against a specification of what each
function returns. Three calls into `std` that Verus has no specification of
(`str::trim`, `String::push` and `String::pop`) sit behind small wrappers whose
contracts are trusted; the whitespace class is written out as the Unicode
`White_Space` code points and checked by a verified function.

- `src/chars.rs`: character classes, trimming, and the calls into `std` for
  strings.
- `src/lexing.rs`: the specification of how text is cut into tokens, and the
  laws of tokenization.
- `src/tokenizer.rs`: `tokenize`, the token types and the token queue.
- `src/errors.rs`: syntax errors and their messages.
- `src/parser.rs`: the syntax tree, `create_ast`, and `parse_returns`, which
  tells whether `create_ast` returns on a token queue.
- `app/main.rs`: the read-eval-print loop.
