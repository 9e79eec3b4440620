use xsh::rc_import::{import_script, marks_in_order, parse_import};
use xsh::repl::{expand_prompt, needs_more_input};
use xsh::state::Shell;
use xsh::test_cmd::{eval, test_status, FileTest, TestStep};

fn args(a: &[&str]) -> Vec<String> {
    a.iter().map(|s| s.to_string()).collect()
}

fn truth(a: &[&str]) -> TestStep {
    eval(&args(a), &[])
}

#[test]
fn test_string_tests() {
    assert!(matches!(truth(&["-z", ""]), TestStep::Truth(true)));
    assert!(matches!(truth(&["-n", ""]), TestStep::Truth(false)));
    assert!(matches!(truth(&["abc"]), TestStep::Truth(true)));
    assert!(matches!(truth(&[""]), TestStep::Truth(false)));
    assert!(matches!(truth(&[]), TestStep::Truth(false)));
    assert!(matches!(truth(&["a", "=", "a"]), TestStep::Truth(true)));
    assert!(matches!(truth(&["a", "!=", "a"]), TestStep::Truth(false)));
}

#[test]
fn test_integer_tests() {
    assert!(matches!(truth(&["1", "-lt", "2"]), TestStep::Truth(true)));
    assert!(matches!(truth(&[" 5 ", "-eq", "5"]), TestStep::Truth(true)));
    assert!(matches!(truth(&["3", "-ge", "4"]), TestStep::Truth(false)));
    assert!(matches!(truth(&["abc", "-eq", "1"]), TestStep::Malformed(m) if m == "integer expected: 'abc'"));
    assert!(matches!(truth(&["1", "-ne", "x"]), TestStep::Malformed(m) if m == "integer expected: 'x'"));
}

#[test]
fn test_connectives() {
    assert!(matches!(truth(&["!", "a"]), TestStep::Truth(false)));
    assert!(matches!(truth(&["a", "-a", ""]), TestStep::Truth(false)));
    assert!(matches!(truth(&["", "-o", "a"]), TestStep::Truth(true)));
    assert!(matches!(truth(&["(", "", "-o", "a", ")", "-a", "b"]), TestStep::Truth(true)));
}

#[test]
fn test_malformed() {
    assert!(matches!(truth(&["(", "a"]), TestStep::Malformed(m) if m == "expected ')'"));
    assert!(matches!(truth(&["a", "b"]), TestStep::Malformed(m) if m == "unexpected argument 'b'"));
    assert!(matches!(truth(&["-n"]), TestStep::Malformed(m) if m == "unexpected end of expression"));
    assert!(matches!(truth(&["a", "="]), TestStep::Malformed(m) if m == "unexpected end of expression"));
}

#[test]
fn test_file_tests_ask_for_probes() {
    let a = args(&["-f", "x", "-a", "-d", "y"]);
    assert!(matches!(eval(&a, &[]), TestStep::NeedsProbe(FileTest::IsFile, p) if p == "x"));
    assert!(matches!(eval(&a, &[true]), TestStep::NeedsProbe(FileTest::IsDir, p) if p == "y"));
    assert!(matches!(eval(&a, &[true, false]), TestStep::Truth(false)));
    assert!(matches!(eval(&a, &[true, true]), TestStep::Truth(true)));
}

#[test]
fn test_statuses() {
    assert_eq!(test_status(Ok(true)), (0, String::new()));
    assert_eq!(test_status(Ok(false)), (1, String::new()));
    assert_eq!(test_status(Err("expected ')'".to_string())), (2, "xsh: test: expected ')'\n".to_string()));
}

#[test]
fn prompt_expands_variables() {
    let sh = Shell::new(vec![("USER".to_string(), "ann".to_string()), ("H".to_string(), "box".to_string())], None, 1);
    assert_eq!(expand_prompt(&sh, "$USER@${H}> "), "ann@box> ");
    assert_eq!(expand_prompt(&sh, "$NOPE|$1|$"), "|$1|$");
    assert_eq!(expand_prompt(&sh, "${USER"), "ann");
    assert_eq!(expand_prompt(&sh, "x$?y"), "x$?y");
}

#[test]
fn continuation_is_asked_for_unfinished_input() {
    assert!(needs_more_input("xsh: syntax error: expected 'fi'"));
    assert!(needs_more_input("unterminated double-quoted string"));
    assert!(needs_more_input("xsh: syntax error near token 'Eof'"));
    assert!(!needs_more_input("xsh: syntax error near token 'RParen'"));
}

#[test]
fn import_script_text() {
    assert_eq!(
        import_script("/h/.bashrc"),
        "source '/h/.bashrc' >/dev/null 2>&1; echo ===XSH_ENV_MARK===; env; echo ===XSH_ALIAS_MARK===; alias"
    );
}

#[test]
fn import_reads_variables_and_aliases() {
    let raw = "noise\n===XSH_ENV_MARK===\nA=1\r\nB=x=y\n=skip\nnovalue\n===XSH_ALIAS_MARK===\nalias ll='ls -l'\n  la=\"ls -a\"  \nbad\n";
    assert!(marks_in_order(raw));
    let imp = parse_import(raw).unwrap();
    assert_eq!(imp.vars, vec![("A".to_string(), "1".to_string()), ("B".to_string(), "x=y".to_string())]);
    assert_eq!(imp.aliases, vec![("ll".to_string(), "ls -l".to_string()), ("la".to_string(), "ls -a".to_string())]);
}

#[test]
fn import_without_marks() {
    assert!(parse_import("A=1\n").is_none());
    assert!(!marks_in_order("===XSH_ALIAS_MARK===\n===XSH_ENV_MARK===\n"));
}

#[test]
fn extra_answers_change_nothing() {
    let a = args(&["-e", "f", "-o", "x"]);
    assert!(matches!(eval(&a, &[true]), TestStep::Truth(true)));
    assert!(matches!(eval(&a, &[true, false, false]), TestStep::Truth(true)));
}

#[test]
fn plain_prompt_is_unchanged() {
    let sh = Shell::new(vec![], None, 1);
    assert_eq!(expand_prompt(&sh, "plain> "), "plain> ");
}
