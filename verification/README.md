# sixu

Sixu is a small scripting language for visual novels: stories made of
paragraphs, blocks, text lines, `@commands`, `#system` calls and embedded
code. This crate holds its verified core:

- `cst_grammar`, `cst_parser`, `cst_reader_laws`: a tolerant reader that
  reads a file into a concrete syntax tree with its comments and
  whitespace (`parse_tolerant`, or `try_parse` where the reader might stop
  making progress, which it never does on ASCII text), and `cst_ast`,
  which turns that tree into the abstract syntax of `format`.
- `cst_format`, `cst_format_laws`, `formatter`: writing trees and
  stories back as text, keeping every comment.
- `fingerprint`, `fingerprint_laws`: content fingerprints of blocks that
  ignore attribute, argument and object-entry order and normalize floats
  and embedded code, at any depth, with their laws.
- `runtime_state`, `runtime`, `runtime_laws`: running a story one step at
  a time, with the built-in jumps and loops, paragraph parameters bound
  as local variables, and an executor for the rest.
- `schema`, `lsp`, `completion`, `cst_helper`, `lsp_laws`: what a language
  server answers (diagnostics, completions, hovers, jumps, outline).

Every function in `src/` carries a contract checked by Verus. `app/` is
the language server that reads and writes the editor's messages and the
files, and calls the library for every answer.
