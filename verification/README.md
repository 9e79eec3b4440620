# xsh

A small POSIX-flavoured interactive shell whose core is verified with Verus.

- `src/` is the verified library:
  - `text`, `strmap`: characters, decimal numbers, string search; a string-keyed map.
    `StrMap` (distinct keys, in insertion order, in a `Vec`) stands where a shell would use
    `HashMap`/`HashSet` keyed by `String`: vstd's specifications of those collections say what
    a lookup returns only for key types that obey its key model, which vstd establishes for
    integer and boolean keys but not for `String` (only an `assume` would give it). `StrMap`'s
    view is an exact `Map`, and its invariant is that no key occurs twice.
  - `ast`, `lexer`, `parser`: the syntax tree, the tokenizer and the recursive-descent
    parser, each with a mathematical model (`SpecToken`, `SpecNode`) and a contract
    that states the result exactly.
  - `arith`, `glob`, `test_cmd`: `$((...))` arithmetic, `case`/glob patterns and the
    `test` expression language.
  - `state`, `exec`, `builtins`: the shell's state, word expansion, function-call
    bookkeeping and the builtin commands.
  - `interp`: the interpreter as a state machine. `Machine::step` runs the innermost
    construct one step further and returns an `Action` (write text, run a process,
    capture output, apply redirections, ...); the answer comes back as the `Event` of
    the next step. `step_rel` states each step exactly.
  - `repl`, `rc_import`: the prompt, the continuation decision and the reading of
    another shell's start-up output.
- `app/` is the program: the line editor, `fork`/`exec`/pipes/redirections, files and
  the clock, driving the machine.
- `tests/` exercises the library on concrete inputs.
