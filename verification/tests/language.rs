use xsh::ast::{Node, RedirectKind, Sep, WordPart};

use xsh::lexer::{Lexer, Token};
use xsh::parser::{is_valid_ident, parse, try_split_assignment, Parser};
use xsh::repl::try_parse;

fn lit(s: &str) -> WordPart {
    WordPart::Literal(s.to_string())
}

fn tokens(src: &str) -> Vec<Token> {
    Lexer::new(src).tokenize().unwrap()
}

#[test]
fn lexes_a_pipeline() {
    assert_eq!(
        tokens("echo hi | wc -l"),
        vec![
            Token::Word(vec![lit("echo")]),
            Token::Word(vec![lit("hi")]),
            Token::Pipe,
            Token::Word(vec![lit("wc")]),
            Token::Word(vec![lit("-l")]),
            Token::Eof,
        ]
    );
}

#[test]
fn lexes_operators() {
    assert_eq!(
        tokens("a && b || c; d ;; e & >> f"),
        vec![
            Token::Word(vec![lit("a")]),
            Token::AndIf,
            Token::Word(vec![lit("b")]),
            Token::OrIf,
            Token::Word(vec![lit("c")]),
            Token::Semi,
            Token::Word(vec![lit("d")]),
            Token::DSemi,
            Token::Word(vec![lit("e")]),
            Token::Amp,
            Token::DGreat,
            Token::Word(vec![lit("f")]),
            Token::Eof,
        ]
    );
}

#[test]
fn lexes_fd_redirects() {
    assert_eq!(
        tokens("cmd 2>&1 1>&2 2> e 2>> f"),
        vec![
            Token::Word(vec![lit("cmd")]),
            Token::DupErrToOut,
            Token::DupOutToErr,
            Token::ErrGreat,
            Token::Word(vec![lit("e")]),
            Token::ErrDGreat,
            Token::Word(vec![lit("f")]),
            Token::Eof,
        ]
    );
}

#[test]
fn digits_are_words_without_redirect() {
    assert_eq!(tokens("echo 42"), vec![Token::Word(vec![lit("echo")]), Token::Word(vec![lit("42")]), Token::Eof]);
}

#[test]
fn lexes_expansions() {
    assert_eq!(
        tokens("echo $HOME ${USER} $(ls) $((1+2))"),
        vec![
            Token::Word(vec![lit("echo")]),
            Token::Word(vec![WordPart::Var("HOME".to_string())]),
            Token::Word(vec![WordPart::Var("USER".to_string())]),
            Token::Word(vec![WordPart::CmdSub("ls".to_string())]),
            Token::Word(vec![WordPart::Arith("1+2".to_string())]),
            Token::Eof,
        ]
    );
}

#[test]
fn single_quotes_keep_dollar() {
    assert_eq!(tokens("echo '$x y'"), vec![Token::Word(vec![lit("echo")]), Token::Word(vec![lit("$x y")]), Token::Eof]);
}

#[test]
fn comments_are_skipped() {
    assert_eq!(tokens("echo a # no\n"), vec![Token::Word(vec![lit("echo")]), Token::Word(vec![lit("a")]), Token::Newline, Token::Eof]);
}

#[test]
fn bang_alone_is_negation() {
    assert_eq!(tokens("! true"), vec![Token::Bang, Token::Word(vec![lit("true")]), Token::Eof]);
}

#[test]
fn unterminated_double_quote_is_an_error() {
    assert_eq!(Lexer::new("echo \"abc").tokenize(), Err("unterminated double-quoted string".to_string()));
}

#[test]
fn unterminated_command_substitution_is_an_error() {
    assert_eq!(Lexer::new("echo $(ls").tokenize(), Err("unterminated command substitution".to_string()));
}

#[test]
fn empty_input_is_only_eof() {
    assert_eq!(tokens(""), vec![Token::Eof]);
}

#[test]
fn parses_an_and_or_list() {
    let prog = parse(tokens("a && b || c")).unwrap();
    assert_eq!(prog.len(), 1);
    match &prog[0] {
        Node::List(items) => {
            assert_eq!(items.len(), 3);
            assert_eq!(items[0].1, Sep::And);
            assert_eq!(items[1].1, Sep::Or);
            assert_eq!(items[2].1, Sep::Sequential);
        }
        other => panic!("unexpected {:?}", other),
    }
}

#[test]
fn parses_if_else() {
    let prog = try_parse("if true; then echo a; else echo b; fi").unwrap();
    assert_eq!(prog.len(), 1);
    match &prog[0] {
        Node::If { branches, else_branch } => {
            assert_eq!(branches.len(), 1);
            assert!(else_branch.is_some());
        }
        other => panic!("unexpected {:?}", other),
    }
}

#[test]
fn parses_a_pipeline_with_negation() {
    let prog = try_parse("! a | b").unwrap();
    match &prog[0] {
        Node::Pipeline(cmds, negate) => {
            assert_eq!(cmds.len(), 2);
            assert!(*negate);
        }
        other => panic!("unexpected {:?}", other),
    }
}

#[test]
fn parses_redirects_and_assignments() {
    let prog = try_parse("X=1 cmd > out 2>&1").unwrap();
    match &prog[0] {
        Node::Simple(sc) => {
            assert_eq!(sc.assignments.len(), 1);
            assert_eq!(sc.assignments[0].0, "X");
            assert_eq!(sc.words.len(), 1);
            assert_eq!(sc.redirects.len(), 2);
            assert_eq!(sc.redirects[0].kind, RedirectKind::Out);
            assert_eq!(sc.redirects[1].kind, RedirectKind::DupErrToOut);
        }
        other => panic!("unexpected {:?}", other),
    }
}

#[test]
fn parses_functions_for_and_background() {
    let prog = try_parse("f() { echo x; }\nfor i in a b; do echo $i; done\n{ echo sub; } &").unwrap();
    assert_eq!(prog.len(), 3);
    assert!(matches!(&prog[0], Node::FunctionDef { name, .. } if name == "f"));
    assert!(matches!(&prog[1], Node::For { var, words, .. } if var == "i" && words.len() == 2));
    assert!(matches!(&prog[2], Node::Background(inner) if matches!(**inner, Node::Subshell(_))));
}

#[test]
fn missing_fi_is_reported() {
    assert_eq!(try_parse("if true; then echo a").err(), Some("xsh: syntax error: expected 'fi'".to_string()));
}

#[test]
fn stray_token_is_reported() {
    assert_eq!(try_parse(")").err(), Some("xsh: syntax error near token 'RParen'".to_string()));
}

#[test]
fn parser_new_and_program() {
    let mut p = Parser::new(tokens("echo a; echo b"));
    let prog = p.parse_program().unwrap();
    assert_eq!(prog.len(), 2);
}

#[test]
fn assignment_words_split() {
    let (name, value) = try_split_assignment(&vec![lit("X=a=b")]).unwrap();
    assert_eq!(name, "X");
    assert_eq!(value, vec![lit("a=b")]);
    assert!(try_split_assignment(&vec![lit("1X=a")]).is_none());
}

#[test]
fn identifiers() {
    let ok: Vec<char> = "_a1".chars().collect();
    let bad: Vec<char> = "1a".chars().collect();
    assert!(is_valid_ident(&ok));
    assert!(!is_valid_ident(&bad));
}

#[test]
fn glob_star_and_question() {
    assert!(xsh::glob::matches("*.rs", "main.rs"));
    assert!(!xsh::glob::matches("*.rs", "main.rc"));
    assert!(xsh::glob::matches("a?c", "abc"));
    assert!(!xsh::glob::matches("a?c", "ac"));
    assert!(xsh::glob::matches("*", ""));
}

#[test]
fn glob_brackets() {
    assert!(xsh::glob::matches("[a-c]x", "bx"));
    assert!(!xsh::glob::matches("[a-c]x", "dx"));
    assert!(xsh::glob::matches("[!a]x", "bx"));
    assert!(!xsh::glob::matches("[^a]x", "ax"));
    assert!(xsh::glob::matches("[ab", "[ab"));
}

#[test]
fn glob_literal() {
    assert!(xsh::glob::matches("abc", "abc"));
    assert!(!xsh::glob::matches("abc", "abcd"));
}

#[test]
fn glob_empty_pattern_and_star_suffix() {
    assert!(xsh::glob::matches("", ""));
    assert!(!xsh::glob::matches("", "a"));
    assert!(xsh::glob::matches("a?", "ab"));
    assert!(xsh::glob::matches("a?*", "abcdef"));
    assert!(xsh::glob::matches("[ab-*", "[ab-xyz"));
}
