use xsh::ast::{Node, WordPart};
use xsh::builtins::BuiltinAction;
use xsh::interp::{Action, Event, Machine};
use xsh::state::Shell;

/// What a run did: standard output, standard error, the external commands
/// it started, the system actions it asked for, and its status.
#[derive(Default, Debug)]
struct Run {
    out: String,
    err: String,
    spawned: Vec<Vec<String>>,
    system: Vec<String>,
    pipelines: Vec<usize>,
    applied: usize,
    restored: usize,
    status: i32,
}

fn shell() -> Shell {
    Shell::new(vec![("HOME".to_string(), "/home/u".to_string())], None, 77)
}

fn drive(sh: &mut Shell, m: Machine, run: &mut Run) -> i32 {
    let mut m = m;
    let mut ev = Event::Nothing;
    loop {
        let a = m.step(sh, ev);
        ev = Event::Nothing;
        match a {
            Action::Continue | Action::StartClock | Action::StopClock => {}
            Action::RestoreRedirects => run.restored += 1,
            Action::Write { out, err } => {
                run.out.push_str(&out);
                run.err.push_str(&err);
            }
            Action::Capture(src) => {
                let mut inner = Run::default();
                drive(sh, Machine::from_text(&src), &mut inner);
                ev = Event::Output(inner.out);
            }
            Action::ApplyRedirects(_) => run.applied += 1,
            Action::Spawn { argv, .. } | Action::Replace { argv, .. } => {
                let failing = argv[0] == "fails";
                run.spawned.push(argv);
                ev = Event::Status(if failing { 1 } else { 0 });
            }
            Action::System { action, .. } => {
                let what = match action {
                    BuiltinAction::ChangeDir(d) => format!("cd {}", d),
                    BuiltinAction::PrintWorkingDir => "pwd".to_string(),
                    BuiltinAction::Wait(p) => format!("wait {:?}", p),
                    BuiltinAction::ReadLine => "read".to_string(),
                    BuiltinAction::Type => "type".to_string(),
                    _ => "other".to_string(),
                };
                run.system.push(what);
                ev = Event::Status(0);
            }
            Action::ReadSource(p) => {
                ev = if p == "lib.sh" {
                    Event::SourceText("Y=7\nZ=8".to_string())
                } else if p == "bad.sh" {
                    Event::SourceText(")".to_string())
                } else {
                    Event::Status(1)
                };
            }
            Action::Pipeline(cmds) => {
                run.pipelines.push(cmds.len());
                ev = Event::Status(0);
            }
            Action::Subshell(body) => {
                let st = drive(sh, Machine::from_nodes(body), run);
                ev = Event::Status(st);
            }
            Action::Background(_) => ev = Event::Spawned(Some(99)),
            Action::Finished(s) => {
                run.status = s;
                return s;
            }
        }
    }
}

fn run_in(sh: &mut Shell, src: &str) -> Run {
    let mut r = Run::default();
    drive(sh, Machine::from_text(src), &mut r);
    r
}

fn run(src: &str) -> Run {
    let mut sh = shell();
    run_in(&mut sh, src)
}

#[test]
fn assignment_then_expansion() {
    assert_eq!(run("X=hello; echo $X").out, "hello\n");
}

#[test]
fn if_elif_else() {
    assert_eq!(run("if false; then echo a; elif true; then echo b; else echo c; fi").out, "b\n");
    assert_eq!(run("if false; then echo a; fi; echo $?").out, "0\n");
}

#[test]
fn for_loop_over_words() {
    assert_eq!(run("for i in a b c; do echo $i; done").out, "a\nb\nc\n");
}

#[test]
fn loops_break_and_continue() {
    assert_eq!(run("while true; do echo once; break; done").out, "once\n");
    assert_eq!(run("until true; do echo no; done; echo end").out, "end\n");
    assert_eq!(run("for i in 1 2 3; do if true; then continue; fi; echo no; done; echo end").out, "end\n");
}

#[test]
fn functions_get_arguments_and_return() {
    assert_eq!(run("f() { echo $1 $#; return 3; }; f a b; echo $?").out, "a 2\n3\n");
    assert_eq!(run("f() { echo $1; }; f x; echo [$1]").out, "x\n[]\n");
}

#[test]
fn and_or_lists() {
    assert_eq!(run("true && echo yes || echo no; false && echo yes || echo no").out, "yes\nno\n");
}

#[test]
fn negated_pipeline() {
    assert_eq!(run("! true; echo $?").out, "1\n");
}

#[test]
fn command_substitution() {
    assert_eq!(run("echo $(echo inner)").out, "inner\n");
}

#[test]
fn aliases_are_expanded() {
    assert_eq!(run("alias hi='echo hello'; hi world").out, "hello world\n");
}

#[test]
fn external_commands_are_spawned() {
    let r = run("ls -l; fails; echo $?");
    assert_eq!(r.spawned, vec![vec!["ls".to_string(), "-l".to_string()], vec!["fails".to_string()]]);
    assert_eq!(r.out, "1\n");
}

#[test]
fn prefix_assignments_are_undone() {
    let mut sh = shell();
    let r = run_in(&mut sh, "X=1 env; echo [$X]");
    assert_eq!(r.out, "[]\n");
    assert_eq!(sh.get_var("X"), None);
}

#[test]
fn arithmetic_expansion_and_errors() {
    assert_eq!(run("X=5; echo $((X * 2))").out, "10\n");
    let r = run("echo $((1/0)); echo $?");
    assert_eq!(r.err, "xsh: arith: division by zero\n");
    assert_eq!(r.out, "1\n");
}

#[test]
fn exit_stops_the_script() {
    let mut sh = shell();
    let r = run_in(&mut sh, "exit 3; echo no");
    assert_eq!(r.out, "");
    assert_eq!(sh.should_exit, Some(3));
    assert_eq!(r.status, 3);
}

#[test]
fn syntax_errors_end_with_status_two() {
    let r = run(")");
    assert_eq!(r.err, "xsh: syntax error near token 'RParen'\n");
    assert_eq!(r.status, 2);
    let l = run("echo \"abc");
    assert_eq!(l.err, "xsh: unterminated double-quoted string\n");
    assert_eq!(l.status, 2);
}

#[test]
fn source_runs_a_file() {
    assert_eq!(run("source lib.sh; echo $Y$Z").out, "78\n");
    assert_eq!(run(". missing; echo $?").out, "1\n");
}

#[test]
fn system_builtins_are_handed_out() {
    let r = run("cd /tmp; pwd; read v; type ls");
    assert_eq!(r.system, vec!["cd /tmp", "pwd", "read", "type"]);
}

#[test]
fn braces_run_in_a_subshell() {
    assert_eq!(run("{ echo sub; }").out, "sub\n");
}

#[test]
fn errexit_stops_after_failure() {
    let mut sh = shell();
    sh.errexit = true;
    let r = run_in(&mut sh, "false; echo no");
    assert_eq!(r.out, "");
    assert_eq!(sh.should_exit, Some(1));
}

#[test]
fn readonly_variables_refuse_assignment() {
    let mut sh = shell();
    sh.readonly.insert("R".to_string(), ());
    let r = run_in(&mut sh, "R=1; echo $?");
    assert_eq!(r.err, "xsh: R: readonly variable\n");
    assert_eq!(r.out, "1\n");
}

#[test]
fn xtrace_prints_commands() {
    let mut sh = shell();
    sh.xtrace = true;
    let r = run_in(&mut sh, "echo a");
    assert_eq!(r.err, "+ echo a\n");
}

#[test]
fn pipelines_and_background_jobs() {
    let mut sh = shell();
    let r = run_in(&mut sh, "a | b | c; sleep 1 &");
    assert_eq!(r.pipelines, vec![3]);
    assert_eq!(sh.bg_jobs, vec![99]);
}

#[test]
fn pipeline_member_replaces_the_process() {
    let mut sh = shell();
    let prog = xsh::repl::try_parse("X=1 ls").unwrap();
    let mut r = Run::default();
    let node = prog.into_iter().next().unwrap();
    drive(&mut sh, Machine::pipeline_member(node), &mut r);
    assert_eq!(r.spawned, vec![vec!["ls".to_string()]]);
    assert_eq!(sh.get_var("X"), Some("1".to_string()));
}

#[test]
fn substitution_in_for_words() {
    assert_eq!(run("for i in $(echo a b) c; do echo $i; done").out, "a b\nc\n");
}

#[test]
fn top_level_return_is_ignored() {
    assert_eq!(run("return 3; echo after").out, "after\n");
}

#[test]
fn sourcing_a_bad_file_reports_and_fails() {
    let r = run("source bad.sh; echo $?");
    assert_eq!(r.err, "xsh: syntax error near token 'RParen'\n");
    assert_eq!(r.out, "2\n");
}

fn lit(s: &str) -> WordPart {
    WordPart::Literal(s.to_string())
}

#[test]
fn case_runs_the_first_matching_arm() {
    let body = xsh::repl::try_parse("echo hit").unwrap();
    let other = xsh::repl::try_parse("echo miss").unwrap();
    let node = Node::Case {
        word: vec![lit("abc")],
        arms: vec![(vec![vec![lit("x*")], vec![lit("?z")]], other), (vec![vec![lit("a*")]], body)],
    };
    let mut sh = shell();
    let mut r = Run::default();
    drive(&mut sh, Machine::from_node(node), &mut r);
    assert_eq!(r.out, "hit\n");
}

#[test]
fn case_without_match_succeeds() {
    let node = Node::Case { word: vec![lit("abc")], arms: vec![(vec![vec![lit("x")]], Vec::new())] };
    let mut sh = shell();
    sh.last_status = 4;
    let mut r = Run::default();
    assert_eq!(drive(&mut sh, Machine::from_node(node), &mut r), 0);
}

#[test]
fn timed_statement_keeps_its_result() {
    let inner = xsh::repl::try_parse("false").unwrap().into_iter().next().unwrap();
    let mut sh = shell();
    let mut r = Run::default();
    assert_eq!(drive(&mut sh, Machine::from_node(Node::Timed(Box::new(inner))), &mut r), 1);
}

#[test]
fn failed_source_restores_redirections() {
    let r = run("source bad.sh > out; echo $?");
    assert_eq!(r.applied, 1);
    assert_eq!(r.restored, 1);
    assert_eq!(r.out, "2\n");
}

#[test]
fn builtin_redirections_are_restored() {
    let r = run("echo hi > out");
    assert_eq!((r.applied, r.restored), (1, 1));
    assert_eq!(r.out, "hi\n");
}
