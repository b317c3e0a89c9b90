# goblin

The front end and core machine of Goblin, a small language with Smalltalk-style
selectors, left-associative binary operators of a single precedence, object literals
and local mutability through `var` bindings and parameters.

The library is written in Verus: each public function states in `requires` / `ensures`
what it does, over spec functions and views, and Verus proves it.

Layout of `src/`:

- `lexer_2`, `parser_2`, `compiler_2`, `runtime_2`: the pipeline from source text to a
  value. The lexer and parser are specified by spec functions over token sequences
  (`lex_spec`, `parse_spec`); the compiler maps the syntax tree to machine code and the
  machine runs it step by step (`spec_run`, with a step budget).
- `grammar`, `lexer`, `source`: the token set with source positions and the first lexer.
- `ir`, `native`, `module_loader`, `frame`: the module machine's instructions, values and
  classes; the integer, string and bool classes with the operations the machine carries
  out itself (`apply_int`, `apply_str`, `apply_bool`, `apply_at_wrap`); the module loader;
  the frame literal builder. `ast::frame_class` builds the class of a frame literal.
- `ast`, `compiler`: the module compiler. `ast` holds the module syntax tree and its
  compilation (`Compiler::program`, `Compiler::module`, specified by `c_body` and the
  spec functions beside it); `compiler` holds the scopes, captures, the code emitted for
  names and the exports object.
- `scope`, `object_builder`, `binding`, `parse_binding`, `class`, `parse_error`: parameter
  and binding forms, builders and errors.
- `text`, `scan`, `sorted`, `assoc`: shared pieces: character classes, scanning, sorted
  maps with their lemmas.

The laws of the library are public proof functions whose names begin with `law_`.

`app/main.rs` reads a program on standard input, runs it through the pipeline and
prints the result.
