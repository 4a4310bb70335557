# bite

The library of BiTE, a terminal that runs bash-like command lines and keeps every command
with its output in a scrolling session. Its logic is written in Verus and verified:

- `screen`: the terminal screen, with the control sequences of a terminal emulator.
- `session`, `locator`, `scroll`: the session of conversations and interactions, and moving
  through its lines.
- `parser`, `byte_code`: the command-line parser, the compiler to byte code and the step of
  the byte-code machine; `data_stack`, `variables`, `builtins`: what the machine works on.
- `history`: the commands entered per folder, with prediction and the saved form.
- `runeline`, `commons`, `presenter`, `presenter_main`, `execute_command`, `compose`,
  `compose_view`, `completions`: the views and their key handling.

`app/` is a small command-line shell around the library: it reads lines, runs programs, and
reads and writes the history file.

The incremental grammar that parses the input while it is typed, and the styled drawing of
the input from its parse tree, are not part of this library: they need a parsing engine that
is not available to it. The composing view therefore offers the variants that work without
it.
