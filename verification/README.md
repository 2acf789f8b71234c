# f_lang

The fuga language: a small language whose variables are consumed when they
are read. This crate holds its lexer, parser, static analyzer, C code
generator and interpreter, each proved against a specification with Verus.

Layout:

- `src/lexer.rs`: source text to tokens; hexadecimal literals, keywords,
  names, and comments in parentheses.
- `src/parser.rs`: tokens to a syntax tree (`src/ast.rs`), by a
  recursive-descent grammar stated as spec functions.
- `src/compiler/analyzer.rs`: the static check of consumption and of
  read-only variables in functions.
- `src/compiler/codegen.rs`: the C source of a program, with its runtime.
- `src/compiler/mod.rs`: analysis and generation together.
- `src/interpreter.rs`: the meaning of a program as spec functions over a
  model of the interpreter's state, and the interpreter proved against it.
- `src/laws.rs`: properties of the language that hold of every program:
  consumption, assignment, arrays, exceptions, the frames of calls,
  implicit conversions, and the shape of parsed statements.
- `src/names.rs`, `src/text.rs`: sets of names, and the building of text.
- `app/main.rs`: the command line: reads the source file and standard
  input, runs the interpreter or writes C and calls `gcc`.
