# jawk

The verified core of an awk implementation, written in Verus.

- `src/` is the library. Every function in it carries a `requires`/`ensures`
  contract that Verus proves; the laws that span several calls are public
  proof functions (named `law_*`) next to the code they are about.
  - `lexer`: awk program text to tokens, specified by `lex_spec`.
  - `escaped_string_reader`: string literal bodies with escape sequences.
  - `parser`: the syntax tree of awk programs, the grammar as spec
    functions (`parse_spec`, `p_stmt`, `p_helper_multi_dim_array`, ...) and
    the recursive-descent parser (`parse`) proved to give what the grammar
    gives, plus the text form of expressions (`Expr::to_text`).
  - `symbolizer`, `global_scalars`: interning of names and numbering of
    global variables.
  - `byte_deque`, `index_of`, `borrowing_split`, `lazily_split_line`,
    `record_reader`: input buffering, searching, and cutting of input into
    records and fields.
  - `awk_str`, `hacky_alloc`, `float_text`, `types`, `tag`,
    `optional_usize`: strings, the string pool, number text, and small types.
- `app/` is the command-line program: argument handling, reading the program
  file, and writing number literals as floats in debug output. It lexes and
  parses the program; running it would take a code generator over
  gnu-libjit, which is not part of this crate.
- `tests/` exercises the library on concrete inputs.
