use xsh::ast::WordPart;
use xsh::exec::{pipeline_status, return_code, skip_next, trim_trailing_newlines, ExpandStep, Flow};
use xsh::ast::Sep;
use xsh::state::Shell;

fn shell() -> Shell {
    Shell::new(vec![("X".to_string(), "1".to_string())], None, 9)
}

#[test]
fn expands_literals_and_variables() {
    let sh = shell();
    let w = vec![WordPart::Literal("a".to_string()), WordPart::Var("X".to_string()), WordPart::Var("NO".to_string())];
    assert!(matches!(sh.expand_word(&w, &[]), ExpandStep::Text(t) if t == "a1"));
}

#[test]
fn command_substitution_asks_for_output() {
    let sh = shell();
    let w = vec![WordPart::CmdSub("date".to_string()), WordPart::Literal("!".to_string())];
    assert!(matches!(sh.expand_word(&w, &[]), ExpandStep::NeedsOutput(s) if s == "date"));
    assert!(matches!(sh.expand_word(&w, &["now\n\n".to_string()]), ExpandStep::Text(t) if t == "now!"));
}

#[test]
fn arithmetic_expansion() {
    let sh = shell();
    let w = vec![WordPart::Arith("X + 41".to_string())];
    assert!(matches!(sh.expand_word(&w, &[]), ExpandStep::Text(t) if t == "42"));
    let bad = vec![WordPart::Arith("1/0".to_string())];
    assert!(matches!(sh.expand_word(&bad, &[]), ExpandStep::Failed(m) if m == "arith: division by zero"));
    let big = vec![WordPart::Arith("9223372036854775807 * 2".to_string())];
    assert!(matches!(sh.expand_word(&big, &[]), ExpandStep::Overflow));
}

#[test]
fn newline_trimming() {
    assert_eq!(trim_trailing_newlines("a\nb\n\n"), "a\nb");
    assert_eq!(trim_trailing_newlines(""), "");
}

#[test]
fn statuses() {
    assert_eq!(pipeline_status(0, true), 1);
    assert_eq!(pipeline_status(3, true), 0);
    assert_eq!(pipeline_status(3, false), 3);
    assert!(skip_next(Sep::And, 1));
    assert!(!skip_next(Sep::And, 0));
    assert!(skip_next(Sep::Or, 0));
    assert!(!skip_next(Sep::Sequential, 1));
    assert_eq!(return_code(" 7 "), 7);
    assert_eq!(return_code("x"), 0);
}

#[test]
fn function_calls_restore_positionals() {
    let mut sh = shell();
    sh.vars.insert("1".to_string(), "outer".to_string());
    sh.enter_function(&["a".to_string(), "b".to_string()]);
    assert_eq!(sh.get_var("1"), Some("a".to_string()));
    assert_eq!(sh.get_var("2"), Some("b".to_string()));
    assert_eq!(sh.get_var("#"), Some("2".to_string()));
    assert_eq!(sh.get_var("@"), Some("a b".to_string()));
    sh.declare_local("X", Some("inner".to_string())).unwrap();
    assert_eq!(sh.get_var("X"), Some("inner".to_string()));
    let st = sh.leave_function(Flow::Return(4));
    assert_eq!(st, 4);
    assert_eq!(sh.get_var("1"), Some("outer".to_string()));
    assert_eq!(sh.get_var("2"), None);
    assert_eq!(sh.get_var("X"), Some("1".to_string()));
}

#[test]
fn local_outside_function_fails() {
    let mut sh = shell();
    assert_eq!(sh.declare_local("X", None), Err("xsh: local: can only be used inside a function".to_string()));
}

#[test]
fn extra_outputs_change_nothing() {
    let sh = shell();
    let w = vec![WordPart::CmdSub("a".to_string())];
    let one = sh.expand_word(&w, &["x\n".to_string()]);
    let two = sh.expand_word(&w, &["x\n".to_string(), "y".to_string()]);
    assert!(matches!(one, ExpandStep::Text(ref t) if t == "x"));
    assert!(matches!(two, ExpandStep::Text(ref t) if t == "x"));
}
