# qu

A compiler for the Qu language, written in Verus. Source text goes through a
lexer, a parser, name resolution, type checking, lowering to an intermediate
representation and C generation. Every function of the library is verified by
Verus against its contract, but the contracts differ in strength: the lexer, the
storage and scope tables, the IR builder and the C generator are specified
exactly, while the parser, the semantic passes and the lowering state what
holds of every result together with when success is owed on restricted shapes
of input (for instance, programs made of functions without parameters and with
empty bodies), not the full result on every input.

Layout:

- `src/` – the verified library: `lexer`, `token_stream`, `parse_context` and
  `parser` (front end), `symbol_analyzer` and `type_checker` (semantics),
  `ir` (intermediate representation and lowering), `backend` (C output),
  `frontend` (the whole pipeline, `compile`), with `storage`, `scope`,
  `symbol`, `layout`, `module`, `context`, `diagnostics` and `span` as the
  shared data model.
- `app/` – the `qu` command: argument handling, file I/O, diagnostic reports
  and the call to the C compiler.
- `tests/` – tests of the library on concrete programs.
