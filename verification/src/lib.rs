//! xsh: a small POSIX-flavoured shell. The library holds the shell's
//! language (lexer, parser, arithmetic, glob patterns, `test` expressions),
//! its state, its builtins and expansion rules, and the interpreter as a
//! state machine; the program around it does the I/O that the machine asks
//! for.

pub mod text;
pub mod ast;
pub mod lexer;
pub mod parser;
pub mod glob;
pub mod strmap;
pub mod arith;
pub mod state;
pub mod exec;
pub mod builtins;
pub mod test_cmd;
pub mod repl;
pub mod rc_import;
pub mod interp;
