use xsh::builtins::{finish_cd, finish_read, is_builtin, needs_path_search, path_candidates, run_builtin, type_report, BuiltinAction};
use xsh::state::Shell;

fn shell() -> Shell {
    Shell::new(vec![("HOME".to_string(), "/home/u".to_string()), ("PATH".to_string(), "/bin:/usr/bin".to_string())], None, 7)
}

fn args(a: &[&str]) -> Vec<String> {
    a.iter().map(|s| s.to_string()).collect()
}

fn done(a: BuiltinAction) -> (i32, String, String) {
    match a {
        BuiltinAction::Done { status, out, err } => (status, out, err),
        _ => panic!("not done"),
    }
}

#[test]
fn builtin_names() {
    for n in ["cd", "pwd", "exit", "export", "unset", "alias", "unalias", "echo", "source", ".", "true", "false", "type", "read", ":", "wait"] {
        assert!(is_builtin(n), "{}", n);
    }
    assert!(!is_builtin("ls"));
    assert!(!is_builtin("local"));
}

#[test]
fn echo_joins_arguments() {
    let mut sh = shell();
    assert_eq!(done(run_builtin(&mut sh, "echo", &args(&["a", "b"]))), (0, "a b\n".to_string(), String::new()));
    assert_eq!(done(run_builtin(&mut sh, "echo", &args(&["-n", "a", "b"]))), (0, "a b".to_string(), String::new()));
    assert_eq!(done(run_builtin(&mut sh, "echo", &args(&[]))), (0, "\n".to_string(), String::new()));
}

#[test]
fn export_sets_and_exports() {
    let mut sh = shell();
    run_builtin(&mut sh, "export", &args(&["A=1", "B"]));
    assert_eq!(sh.get_var("A"), Some("1".to_string()));
    assert!(sh.exported.contains_key("A"));
    assert!(sh.exported.contains_key("B"));
    assert_eq!(sh.get_var("B"), None);
}

#[test]
fn unset_removes_everywhere() {
    let mut sh = shell();
    run_builtin(&mut sh, "unset", &args(&["HOME"]));
    assert_eq!(sh.get_var("HOME"), None);
    assert!(!sh.exported.contains_key("HOME"));
}

#[test]
fn alias_define_print_and_list() {
    let mut sh = shell();
    assert_eq!(done(run_builtin(&mut sh, "alias", &args(&["ll=ls -l", "la=ls -a"]))).1, "");
    assert_eq!(done(run_builtin(&mut sh, "alias", &args(&["ll", "nope"]))).1, "alias ll='ls -l'\n");
    assert_eq!(done(run_builtin(&mut sh, "alias", &args(&[]))).1, "alias la='ls -a'\nalias ll='ls -l'\n");
    run_builtin(&mut sh, "unalias", &args(&["ll"]));
    assert_eq!(done(run_builtin(&mut sh, "alias", &args(&[]))).1, "alias la='ls -a'\n");
}

#[test]
fn exit_takes_code_or_last_status() {
    let mut sh = shell();
    assert_eq!(done(run_builtin(&mut sh, "exit", &args(&["3"]))).0, 3);
    assert_eq!(sh.should_exit, Some(3));
    let mut sh2 = shell();
    sh2.last_status = 5;
    assert_eq!(done(run_builtin(&mut sh2, "exit", &args(&["x"]))).0, 5);
    assert_eq!(sh2.should_exit, Some(5));
}

#[test]
fn true_false_colon() {
    let mut sh = shell();
    assert_eq!(done(run_builtin(&mut sh, "true", &args(&[]))).0, 0);
    assert_eq!(done(run_builtin(&mut sh, ":", &args(&[]))).0, 0);
    assert_eq!(done(run_builtin(&mut sh, "false", &args(&[]))).0, 1);
}

#[test]
fn not_a_builtin() {
    let mut sh = shell();
    assert_eq!(done(run_builtin(&mut sh, "ls", &args(&[]))), (1, String::new(), "xsh: ls: not a builtin\n".to_string()));
}

#[test]
fn cd_targets() {
    let mut sh = shell();
    assert!(matches!(run_builtin(&mut sh, "cd", &args(&["/tmp"])), BuiltinAction::ChangeDir(d) if d == "/tmp"));
    assert!(matches!(run_builtin(&mut sh, "cd", &args(&[])), BuiltinAction::ChangeDir(d) if d == "/home/u"));
    let mut nohome = Shell::new(vec![], None, 1);
    assert_eq!(done(run_builtin(&mut nohome, "cd", &args(&[]))), (1, String::new(), "xsh: cd: HOME not set\n".to_string()));
    finish_cd(&mut sh, "/tmp".to_string());
    assert_eq!(sh.get_var("PWD"), Some("/tmp".to_string()));
    assert!(sh.exported.contains_key("PWD"));
}

#[test]
fn source_needs_a_file() {
    let mut sh = shell();
    assert!(matches!(run_builtin(&mut sh, ".", &args(&["f"])), BuiltinAction::Source(f) if f == "f"));
    assert_eq!(done(run_builtin(&mut sh, "source", &args(&[]))).2, "xsh: source: filename argument required\n");
}

#[test]
fn wait_takes_the_jobs() {
    let mut sh = shell();
    sh.bg_jobs.push(11);
    sh.bg_jobs.push(12);
    assert!(matches!(run_builtin(&mut sh, "wait", &args(&[])), BuiltinAction::Wait(p) if p == vec![11, 12]));
    assert!(sh.bg_jobs.is_empty());
}

#[test]
fn read_sets_variable() {
    let mut sh = shell();
    assert!(matches!(run_builtin(&mut sh, "read", &args(&["v"])), BuiltinAction::ReadLine));
    assert_eq!(finish_read(&mut sh, &args(&["v"]), Some("hello\n".to_string())), 0);
    assert_eq!(sh.get_var("v"), Some("hello".to_string()));
    assert_eq!(finish_read(&mut sh, &args(&[]), Some("x".to_string())), 0);
    assert_eq!(sh.get_var("REPLY"), Some("x".to_string()));
    assert_eq!(finish_read(&mut sh, &args(&[]), None), 1);
}

#[test]
fn type_reports_each_kind() {
    let mut sh = shell();
    run_builtin(&mut sh, "alias", &args(&["ll=ls -l"]));
    assert!(!needs_path_search(&sh, "ll"));
    assert!(!needs_path_search(&sh, "cd"));
    assert!(needs_path_search(&sh, "ls"));
    let names = args(&["ll", "cd", "ls", "zz"]);
    let found = vec![None, None, Some("/bin/ls".to_string()), None];
    let (out, status) = type_report(&sh, &names, &found);
    assert_eq!(out, "ll is an alias for 'ls -l'\ncd is a shell builtin\nls is /bin/ls\nxsh: type: zz: not found\n");
    assert_eq!(status, 1);
}

#[test]
fn path_search_candidates() {
    assert_eq!(path_candidates("/bin:/usr/bin/:", "ls"), vec!["/bin/ls".to_string(), "/usr/bin/ls".to_string(), "ls".to_string()]);
    assert_eq!(path_candidates("/bin", "/abs/x"), vec!["/abs/x".to_string()]);
    assert_eq!(path_candidates("", "ls"), vec!["ls".to_string()]);
}

#[test]
fn unset_after_export() {
    let mut sh = shell();
    run_builtin(&mut sh, "export", &args(&["K=v"]));
    assert_eq!(sh.get_var("K"), Some("v".to_string()));
    run_builtin(&mut sh, "unset", &args(&["K"]));
    assert_eq!(sh.get_var("K"), None);
    assert!(!sh.exported.contains_key("K"));
}
