use xsh::arith::{eval, eval_checked};
use xsh::state::Shell;
use xsh::strmap::StrMap;

fn vars(pairs: &[(&str, &str)]) -> StrMap<String> {
    let mut m = StrMap::new();
    for (k, v) in pairs {
        m.insert(k.to_string(), v.to_string());
    }
    m
}

#[test]
fn arith_precedence() {
    assert_eq!(eval("1 + 2 * 3", &vars(&[])), Ok(7));
    assert_eq!(eval("(1 + 2) * 3", &vars(&[])), Ok(9));
    assert_eq!(eval("-7 / 2", &vars(&[])), Ok(-3));
    assert_eq!(eval("-7 % 2", &vars(&[])), Ok(-1));
}

#[test]
fn arith_comparisons() {
    assert_eq!(eval("2 < 3", &vars(&[])), Ok(1));
    assert_eq!(eval("2 >= 3", &vars(&[])), Ok(0));
    assert_eq!(eval("4 == 4", &vars(&[])), Ok(1));
}

#[test]
fn arith_variables() {
    let m = vars(&[("x", "5"), ("bad", "zz")]);
    assert_eq!(eval("x * 2", &m), Ok(10));
    assert_eq!(eval("$x + 1", &m), Err("arith: unexpected token Some('$')".to_string()));
    assert_eq!(eval("unset + 1", &m), Ok(1));
    assert_eq!(eval("bad + 1", &m), Ok(1));
}

#[test]
fn arith_errors() {
    assert_eq!(eval("1 / 0", &vars(&[])), Err("arith: division by zero".to_string()));
    assert_eq!(eval("1 % 0", &vars(&[])), Err("arith: division by zero".to_string()));
    assert_eq!(eval("(1", &vars(&[])), Err("arith: expected ')'".to_string()));
    assert_eq!(eval("*", &vars(&[])), Err("arith: unexpected token Some('*')".to_string()));
    assert_eq!(eval("", &vars(&[])), Err("arith: unexpected token None".to_string()));
    assert_eq!(eval("1 2", &vars(&[])), Err("arith: unexpected trailing input in '1 2'".to_string()));
}

#[test]
fn arith_overflow_is_detected() {
    assert_eq!(eval_checked("9223372036854775807 + 1", &vars(&[])), None);
    assert_eq!(eval_checked("2 + 2", &vars(&[])), Some(Ok(4)));
}

#[test]
fn strmap_insert_get_remove() {
    let mut m: StrMap<String> = StrMap::new();
    m.insert("a".to_string(), "1".to_string());
    m.insert("a".to_string(), "2".to_string());
    assert_eq!(m.get("a"), Some(&"2".to_string()));
    assert_eq!(m.len(), 1);
    m.remove("a");
    assert!(!m.contains_key("a"));
}

#[test]
fn new_shell_takes_environment() {
    let sh = Shell::new(vec![("HOME".to_string(), "/h".to_string())], Some("/w".to_string()), 42);
    assert_eq!(sh.get_var("HOME"), Some("/h".to_string()));
    assert_eq!(sh.get_var("PWD"), Some("/w".to_string()));
    assert_eq!(sh.get_var("PS1"), Some("xsh:$PWD$ ".to_string()));
    assert_eq!(sh.get_var("$"), Some("42".to_string()));
    assert_eq!(sh.get_var("?"), Some("0".to_string()));
    assert_eq!(sh.get_var("0"), Some("xsh".to_string()));
    assert_eq!(sh.get_var("NOPE"), None);
}

#[test]
fn environment_pwd_wins_over_cwd() {
    let sh = Shell::new(vec![("PWD".to_string(), "/e".to_string())], Some("/w".to_string()), 1);
    assert_eq!(sh.get_var("PWD"), Some("/e".to_string()));
}

#[test]
fn children_get_exported_variables_only() {
    let mut sh = Shell::new(vec![("A".to_string(), "1".to_string())], None, 1);
    sh.vars.insert("B".to_string(), "2".to_string());
    let env = sh.env_for_child();
    assert_eq!(env, vec![("A".to_string(), "1".to_string())]);
}

#[test]
fn arith_literal_too_large() {
    assert_eq!(eval("99999999999999999999", &vars(&[])), Err("number too large to fit in target type".to_string()));
}
