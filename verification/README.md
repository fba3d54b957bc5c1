# bea

An interpreter for a small Lox-like language, written in Verus: every
function of the library carries a contract that Verus proves.

- `src/scanner.rs` turns source text into tokens.
- `src/grammar.rs` says, as functions of the tokens, what parsing gives;
  `src/parser.rs` parses and is proved to give exactly that.
- `src/semantics.rs` says what running a program does, as a function of
  the program, the environments and the replies given to its requests
  for numbers (floating point belongs to the program around the library);
  `src/interpreter.rs` runs programs and is proved to do exactly that,
  down to every request it records: what to print, and the digits and
  operands of each number it asks for.  A run that finds no reply left
  stops, naming the request it waits on, and leaves the environments as
  they were, so that the program around it can answer and run again.
- `src/environments/` holds the tree of scopes variables live in,
  `src/literals.rs` the values, `src/callable.rs` the functions,
  `src/resolver.rs` the scope tracking of the resolver.
- `app/main.rs` is the program around the library: the command line,
  files, standard input and output, and the `f32` arithmetic that
  answers the interpreter's requests.

Loops may iterate, and calls nest, at most as often as the interpreter's
budget allows (`Interpreter::with_budget`; `Interpreter::new` allows
`u64::MAX`).
