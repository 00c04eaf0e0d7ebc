# shmy

A small command line interpreter with Unix-like built-in commands. The
language and the logic of the commands are a library written in Verus; the
program around it reads input, runs processes and touches the file system.

What the proofs cover varies by part. Flags, values, scopes, aliases,
variable expansion, the tokens of the lexer, the arithmetic and comparison
operators and the commands' logic have contracts that state their results.
Evaluation of a tree is stated for expressions made of words and arithmetic
or comparison operators, for groups of one word, and for the errors of a
missing operand; evaluation of text is stated for single quoted words, for
the empty input, and for the errors that the first token decides. The
parser's tree is stated for those inputs and for an input of one unquoted word
that is not a command and names one file (no `*`, `?`, `[`, `]` or `/`): file
name expansion gives such a word back unchanged whatever the disk holds. Other
unquoted words go through file name expansion, which depends on the disk, and
a word may name a program on the search path; there the value is not stated,
only memory safety, absence of overflow and the bookkeeping.

- `src/` — the library: text helpers, values and scopes, the lexer and
  parser, the interpreter (`interp.rs`), command flags, the command table,
  symbolic link chains (`links.rs`), and the commands' logic (`cat`, `cd`,
  `chmod`, `cut`, `diff` with the edit graph search in `edit_graph.rs`,
  `grep`, `help`, the `less` viewer's key handling, `ls`, `mv` (where a
  source goes, and which moves are refused), `ps` and its list view, `sort`,
  `strings`, `vars`, `wc`, completions).
- `tests/` — tests of the library.
- `app/` — the program: the host of the interpreter (output, redirection,
  processes, the environment) and the file and process reading that the
  commands need. It does not run the `less` viewer, and it has no line
  editing or completion.
