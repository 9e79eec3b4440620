//! The parser: from tokens to syntax trees, by recursive descent.

use vstd::prelude::*;
use crate::ast::{
    node_view, nodes_view, word_view, words_view, Node, Redirect, RedirectKind, Sep, SimpleCommand,
    SpecNode, SpecRedirect, SpecSimple, SpecWord, SpecWordPart, Word, WordPart,
};
use crate::lexer::{tokens_view, SpecToken, Token};
use crate::text::{chars_of, concat_str, is_alphabetic, is_alphanumeric, is_name_char, is_name_start, str_eq, string_from_chars};

verus! {

broadcast use vstd::string::group_string_axioms;

// ----- the grammar -----

/// A token sequence the parser accepts as input: not empty, ending with `Eof`.
pub open spec fn wf_tokens(ts: Seq<SpecToken>) -> bool {
    ts.len() > 0 && ts.last() is Eof
}

/// The reserved words.
pub open spec fn is_keyword(s: Seq<char>) -> bool {
    s == "if"@ || s == "then"@ || s == "elif"@ || s == "else"@ || s == "fi"@ || s == "for"@ || s == "in"@
        || s == "do"@ || s == "done"@ || s == "while"@ || s == "until"@ || s == "function"@ || s == "return"@
        || s == "break"@ || s == "continue"@
}

/// A name: a letter or `_`, then letters, digits and `_`.
pub open spec fn is_valid_ident_spec(s: Seq<char>) -> bool {
    s.len() > 0 && is_name_start(s[0]) && forall|i: int| 1 <= i < s.len() ==> is_name_char(#[trigger] s[i])
}

/// The text of a word made of one literal part.
pub open spec fn plain_literal_spec(w: SpecWord) -> Option<Seq<char>> {
    if w.len() == 1 {
        match w[0] {
            SpecWordPart::Literal(s) => Some(s),
            _ => None,
        }
    } else {
        None
    }
}

/// The name a word spells, if it is a plain literal that is a valid name.
pub open spec fn plain_ident_spec(w: SpecWord) -> Option<Seq<char>> {
    match plain_literal_spec(w) {
        Some(s) => if is_valid_ident_spec(s) { Some(s) } else { None },
        None => None,
    }
}

/// The first index of `c` in `s` at or after `i`, if any.
pub open spec fn first_index(s: Seq<char>, i: int, c: char) -> Option<int>
    decreases s.len() - i,
{
    if i < 0 || i >= s.len() {
        None
    } else if s[i] == c {
        Some(i)
    } else {
        first_index(s, i + 1, c)
    }
}

/// `NAME=value` at the start of a word: the name, and the value as a word
/// (the text after the first `=`, then the word's other parts).
pub open spec fn split_assignment_spec(w: SpecWord) -> Option<(Seq<char>, SpecWord)> {
    if w.len() > 0 {
        match w[0] {
            SpecWordPart::Literal(s) => match first_index(s, 0, '=') {
                Some(e) => {
                    let name = s.subrange(0, e);
                    if name.len() > 0 && is_valid_ident_spec(name) {
                        Some((name, seq![SpecWordPart::Literal(s.subrange(e + 1, s.len() as int))] + w.drop_first()))
                    } else {
                        None
                    }
                },
                None => None,
            },
            _ => None,
        }
    } else {
        None
    }
}

/// The reserved word at position `p`, if the token there is one.
pub open spec fn keyword_at(ts: Seq<SpecToken>, p: int) -> Option<Seq<char>> {
    if 0 <= p < ts.len() {
        match ts[p] {
            SpecToken::Word(w) => match plain_literal_spec(w) {
                Some(s) => if is_keyword(s) { Some(s) } else { None },
                None => None,
            },
            _ => None,
        }
    } else {
        None
    }
}

/// The position after `p`; the last token is never passed.
pub open spec fn adv(ts: Seq<SpecToken>, p: int) -> int {
    if p + 1 < ts.len() { p + 1 } else { p }
}

/// The first position at or after `p` that does not hold a newline.
pub open spec fn skip_nl(ts: Seq<SpecToken>, p: int) -> int
    decreases ts.len() - p,
{
    if 0 <= p && p + 1 < ts.len() && ts[p] is Newline {
        skip_nl(ts, p + 1)
    } else {
        p
    }
}

/// Where a statement list ends.
#[derive(Clone, Copy, PartialEq, Eq, Structural)]
pub enum Stop {
    /// at the end of input only
    Top,
    Then,
    /// `elif`, `else` or `fi`
    ElseFi,
    Fi,
    Do,
    Done,
    /// `}`
    Brace,
}

/// The reserved words that end a statement list.
pub open spec fn stops_at(stop: Stop, k: Seq<char>) -> bool {
    match stop {
        Stop::Top => false,
        Stop::Then => k == "then"@,
        Stop::ElseFi => k == "elif"@ || k == "else"@ || k == "fi"@,
        Stop::Fi => k == "fi"@,
        Stop::Do => k == "do"@,
        Stop::Done => k == "done"@,
        Stop::Brace => false,
    }
}

/// The message for a missing reserved word.
pub open spec fn expected_msg(k: Seq<char>) -> Seq<char> {
    "xsh: syntax error: expected '"@ + k + "'"@
}

/// The name `Debug` gives a token that is not a word.
pub open spec fn token_name(t: SpecToken) -> Seq<char> {
    match t {
        SpecToken::Word(_) => "Word"@,
        SpecToken::Pipe => "Pipe"@,
        SpecToken::AndIf => "AndIf"@,
        SpecToken::OrIf => "OrIf"@,
        SpecToken::Semi => "Semi"@,
        SpecToken::DSemi => "DSemi"@,
        SpecToken::Amp => "Amp"@,
        SpecToken::Newline => "Newline"@,
        SpecToken::LBrace => "LBrace"@,
        SpecToken::RBrace => "RBrace"@,
        SpecToken::LParen => "LParen"@,
        SpecToken::RParen => "RParen"@,
        SpecToken::Bang => "Bang"@,
        SpecToken::Less => "Less"@,
        SpecToken::Great => "Great"@,
        SpecToken::DGreat => "DGreat"@,
        SpecToken::ErrGreat => "ErrGreat"@,
        SpecToken::ErrDGreat => "ErrDGreat"@,
        SpecToken::AndGreat => "AndGreat"@,
        SpecToken::DupErrToOut => "DupErrToOut"@,
        SpecToken::DupOutToErr => "DupOutToErr"@,
        SpecToken::Eof => "Eof"@,
    }
}

/// The redirection a token stands for, and whether it takes a target word.
pub open spec fn redirect_of(t: SpecToken) -> Option<(RedirectKind, bool)> {
    match t {
        SpecToken::Less => Some((RedirectKind::In, true)),
        SpecToken::Great => Some((RedirectKind::Out, true)),
        SpecToken::DGreat => Some((RedirectKind::Append, true)),
        SpecToken::ErrGreat => Some((RedirectKind::ErrOut, true)),
        SpecToken::ErrDGreat => Some((RedirectKind::ErrAppend, true)),
        SpecToken::AndGreat => Some((RedirectKind::Both, true)),
        SpecToken::DupErrToOut => Some((RedirectKind::DupErrToOut, false)),
        SpecToken::DupOutToErr => Some((RedirectKind::DupOutToErr, false)),
        _ => None,
    }
}

/// The word tokens from position `q` on, as the words of a `for` loop.
pub open spec fn for_words(ts: Seq<SpecToken>, q: int, acc: Seq<SpecWord>) -> (Seq<SpecWord>, int)
    decreases ts.len() - q,
{
    if 0 <= q && q + 1 < ts.len() && ts[q] is Word {
        for_words(ts, q + 1, acc.push(ts[q]->Word_0))
    } else {
        (acc, q)
    }
}

/// The simple command from position `q` on, given what has been read of it.
pub open spec fn simple_spec(
    ts: Seq<SpecToken>,
    q: int,
    assigns: Seq<(Seq<char>, SpecWord)>,
    words: Seq<SpecWord>,
    redirects: Seq<SpecRedirect>,
    seen_word: bool,
) -> Result<(SpecNode, int), Seq<char>>
    decreases ts.len() - q,
{
    if q < 0 || q + 1 >= ts.len() {
        // only `Eof` is left
        if assigns.len() == 0 && words.len() == 0 && redirects.len() == 0 {
            Err("xsh: syntax error near token '"@ + token_name(SpecToken::Eof) + "'"@)
        } else {
            Ok((SpecNode::Simple(SpecSimple { assignments: assigns, words, redirects }), q))
        }
    } else {
        match ts[q] {
            SpecToken::Word(w) => if !seen_word && split_assignment_spec(w) is Some {
                simple_spec(ts, q + 1, assigns.push(split_assignment_spec(w)->0), words, redirects, seen_word)
            } else {
                simple_spec(ts, q + 1, assigns, words.push(w), redirects, true)
            },
            _ => match redirect_of(ts[q]) {
                Some((kind, true)) => match ts[q + 1] {
                    SpecToken::Word(t) => if q + 2 < ts.len() {
                        simple_spec(
                            ts,
                            q + 2,
                            assigns,
                            words,
                            redirects.push(SpecRedirect { kind, target: t }),
                            seen_word,
                        )
                    } else {
                        Err(Seq::empty())
                    },
                    _ => Err("xsh: syntax error: expected word"@),
                },
                Some((kind, false)) => simple_spec(
                    ts,
                    q + 1,
                    assigns,
                    words,
                    redirects.push(SpecRedirect { kind, target: Seq::empty() }),
                    seen_word,
                ),
                None => if assigns.len() == 0 && words.len() == 0 && redirects.len() == 0 {
                    Err("xsh: syntax error near token '"@ + token_name(ts[q]) + "'"@)
                } else {
                    Ok((SpecNode::Simple(SpecSimple { assignments: assigns, words, redirects }), q))
                },
            },
        }
    }
}

/// A statement list from position `p`, after the statements `acc`: the
/// statements, and the position of the token that ended the list.
pub open spec fn stmts_spec(ts: Seq<SpecToken>, p: int, stop: Stop, acc: Seq<SpecNode>) -> Result<(Seq<SpecNode>, int), Seq<char>>
    decreases ts.len() - p, 9int,
{
    if p < 0 || p >= ts.len() {
        Err(Seq::empty())
    } else if ts[p] is Newline || ts[p] is Semi {
        if p + 1 < ts.len() {
            stmts_spec(ts, p + 1, stop, acc)
        } else {
            Err(Seq::empty())
        }
    } else if ts[p] is Eof {
        Ok((acc, p))
    } else if (keyword_at(ts, p) is Some && stops_at(stop, keyword_at(ts, p)->0)) || (stop == Stop::Brace
        && ts[p] is RBrace) {
        Ok((acc, p))
    } else {
        match and_or_spec(ts, p) {
            Err(e) => Err(e),
            Ok((node, q)) => if p < q < ts.len() {
                let bg = ts[q] is Amp;
                let node2 = if bg { SpecNode::Background(Box::new(node)) } else { node };
                let q2 = if bg { adv(ts, q) } else { q };
                let q3 = if ts[q2] is Semi || ts[q2] is Newline { adv(ts, q2) } else { q2 };
                stmts_spec(ts, q3, stop, acc.push(node2))
            } else {
                Err(Seq::empty())
            },
        }
    }
}

/// An and-or list at position `p`.
pub open spec fn and_or_spec(ts: Seq<SpecToken>, p: int) -> Result<(SpecNode, int), Seq<char>>
    decreases ts.len() - p, 8int,
{
    if p < 0 || p >= ts.len() {
        Err(Seq::empty())
    } else {
        match pipeline_spec(ts, p) {
            Err(e) => Err(e),
            Ok((first, q)) => if p < q < ts.len() {
                and_or_rest(ts, q, first, Seq::empty())
            } else {
                Err(Seq::empty())
            },
        }
    }
}

/// The rest of an and-or list at position `q`, after the pipeline `current`
/// and the finished items `items`.
pub open spec fn and_or_rest(ts: Seq<SpecToken>, q: int, current: SpecNode, items: Seq<(SpecNode, Sep)>) -> Result<(SpecNode, int), Seq<char>>
    decreases ts.len() - q, 8int,
{
    if q < 0 || q >= ts.len() {
        Err(Seq::empty())
    } else if ts[q] is AndIf || ts[q] is OrIf {
        let sep = if ts[q] is AndIf { Sep::And } else { Sep::Or };
        let q1 = skip_nl(ts, adv(ts, q));
        if q < q1 < ts.len() {
            match pipeline_spec(ts, q1) {
                Err(e) => Err(e),
                Ok((next, q2)) => if q < q2 < ts.len() {
                    and_or_rest(ts, q2, next, items.push((current, sep)))
                } else {
                    Err(Seq::empty())
                },
            }
        } else {
            Err(Seq::empty())
        }
    } else if items.len() == 0 {
        Ok((current, q))
    } else {
        Ok((SpecNode::List(items.push((current, Sep::Sequential))), q))
    }
}

/// A pipeline at position `p`, optionally negated with `!`.
pub open spec fn pipeline_spec(ts: Seq<SpecToken>, p: int) -> Result<(SpecNode, int), Seq<char>>
    decreases ts.len() - p, 7int,
{
    if p < 0 || p >= ts.len() {
        Err(Seq::empty())
    } else {
        let neg = ts[p] is Bang;
        let p1 = if neg { adv(ts, p) } else { p };
        match command_spec(ts, p1) {
            Err(e) => Err(e),
            Ok((c, q)) => if p < q < ts.len() {
                pipeline_rest(ts, q, seq![c], neg)
            } else {
                Err(Seq::empty())
            },
        }
    }
}

/// The rest of a pipeline at position `q`, after the commands `cmds`.
pub open spec fn pipeline_rest(ts: Seq<SpecToken>, q: int, cmds: Seq<SpecNode>, neg: bool) -> Result<(SpecNode, int), Seq<char>>
    decreases ts.len() - q, 7int,
{
    if q < 0 || q >= ts.len() {
        Err(Seq::empty())
    } else if ts[q] is Pipe {
        let q1 = skip_nl(ts, adv(ts, q));
        if q < q1 < ts.len() {
            match command_spec(ts, q1) {
                Err(e) => Err(e),
                Ok((c, q2)) => if q < q2 < ts.len() {
                    pipeline_rest(ts, q2, cmds.push(c), neg)
                } else {
                    Err(Seq::empty())
                },
            }
        } else {
            Err(Seq::empty())
        }
    } else if cmds.len() == 1 && !neg {
        Ok((cmds[0], q))
    } else {
        Ok((SpecNode::Pipeline(cmds, neg), q))
    }
}

/// A command at position `p`.
pub open spec fn command_spec(ts: Seq<SpecToken>, p: int) -> Result<(SpecNode, int), Seq<char>>
    decreases ts.len() - p, 6int,
{
    if p < 0 || p >= ts.len() {
        Err(Seq::empty())
    } else {
        let k = keyword_at(ts, p);
        if k == Some("if"@) {
            if_spec(ts, p)
        } else if k == Some("for"@) {
            for_spec(ts, p)
        } else if k == Some("while"@) {
            while_spec(ts, p, false)
        } else if k == Some("until"@) {
            while_spec(ts, p, true)
        } else if k == Some("function"@) {
            function_kw_spec(ts, p)
        } else if k == Some("return"@) {
            let p1 = adv(ts, p);
            match ts[p1] {
                SpecToken::Word(w) => Ok((SpecNode::Return(Some(w)), adv(ts, p1))),
                _ => Ok((SpecNode::Return(None), p1)),
            }
        } else if k == Some("break"@) {
            Ok((SpecNode::Break, adv(ts, p)))
        } else if k == Some("continue"@) {
            Ok((SpecNode::Continue, adv(ts, p)))
        } else if ts[p] is LBrace {
            if p + 1 < ts.len() {
                match stmts_spec(ts, p + 1, Stop::Brace, Seq::empty()) {
                    Err(e) => Err(e),
                    Ok((body, q)) => if 0 <= q < ts.len() && ts[q] is RBrace {
                        Ok((SpecNode::Subshell(body), adv(ts, q)))
                    } else {
                        Err("xsh: syntax error: expected '}'"@)
                    },
                }
            } else {
                Err(Seq::empty())
            }
        } else {
            simple_or_funcdef_spec(ts, p)
        }
    }
}

/// `if ...; then ...; [elif ...; then ...;]* [else ...;] fi` at position `p`.
pub open spec fn if_spec(ts: Seq<SpecToken>, p: int) -> Result<(SpecNode, int), Seq<char>>
    decreases ts.len() - p, 5int,
{
    if p < 0 || p + 1 >= ts.len() {
        Err(Seq::empty())
    } else {
        match stmts_spec(ts, p + 1, Stop::Then, Seq::empty()) {
            Err(e) => Err(e),
            Ok((cond, q)) => if keyword_at(ts, q) == Some("then"@) {
                if p < q && q + 1 < ts.len() {
                    match stmts_spec(ts, q + 1, Stop::ElseFi, Seq::empty()) {
                        Err(e) => Err(e),
                        Ok((body, r)) => if p < r < ts.len() {
                            if_rest(ts, r, seq![(cond, body)])
                        } else {
                            Err(Seq::empty())
                        },
                    }
                } else {
                    Err(Seq::empty())
                }
            } else {
                Err(expected_msg("then"@))
            },
        }
    }
}

/// The `elif`, `else` and `fi` parts of an `if` at position `q`, after the
/// branches `branches`.
pub open spec fn if_rest(ts: Seq<SpecToken>, q: int, branches: Seq<(Seq<SpecNode>, Seq<SpecNode>)>) -> Result<(SpecNode, int), Seq<char>>
    decreases ts.len() - q, 5int,
{
    if q < 0 || q + 1 >= ts.len() {
        Err(expected_msg("fi"@))
    } else {
        let k = keyword_at(ts, q);
        if k == Some("elif"@) {
            match stmts_spec(ts, q + 1, Stop::Then, Seq::empty()) {
                Err(e) => Err(e),
                Ok((cond, r)) => if keyword_at(ts, r) == Some("then"@) {
                    if q < r && r + 1 < ts.len() {
                        match stmts_spec(ts, r + 1, Stop::ElseFi, Seq::empty()) {
                            Err(e) => Err(e),
                            Ok((body, r2)) => if q < r2 < ts.len() {
                                if_rest(ts, r2, branches.push((cond, body)))
                            } else {
                                Err(Seq::empty())
                            },
                        }
                    } else {
                        Err(Seq::empty())
                    }
                } else {
                    Err(expected_msg("then"@))
                },
            }
        } else if k == Some("else"@) {
            match stmts_spec(ts, q + 1, Stop::Fi, Seq::empty()) {
                Err(e) => Err(e),
                Ok((body, r)) => if keyword_at(ts, r) == Some("fi"@) {
                    Ok((SpecNode::If { branches, else_branch: Some(body) }, adv(ts, r)))
                } else {
                    Err(expected_msg("fi"@))
                },
            }
        } else if k == Some("fi"@) {
            Ok((SpecNode::If { branches, else_branch: None }, q + 1))
        } else {
            Err(expected_msg("fi"@))
        }
    }
}

/// The body `do ... done` of a loop, where `q` holds the `do`.
pub open spec fn do_done_spec(ts: Seq<SpecToken>, q: int) -> Result<(Seq<SpecNode>, int), Seq<char>>
    decreases ts.len() - q, 4int,
{
    if keyword_at(ts, q) != Some("do"@) {
        Err(expected_msg("do"@))
    } else if 0 <= q && q + 1 < ts.len() {
        match stmts_spec(ts, q + 1, Stop::Done, Seq::empty()) {
            Err(e) => Err(e),
            Ok((body, r)) => if keyword_at(ts, r) == Some("done"@) {
                Ok((body, adv(ts, r)))
            } else {
                Err(expected_msg("done"@))
            },
        }
    } else {
        Err(Seq::empty())
    }
}

/// `for NAME [in WORDS...] do ... done` at position `p`.
pub open spec fn for_spec(ts: Seq<SpecToken>, p: int) -> Result<(SpecNode, int), Seq<char>>
    decreases ts.len() - p, 5int,
{
    if p < 0 || p + 1 >= ts.len() {
        Err(Seq::empty())
    } else {
        let p1 = p + 1;
        match ts[p1] {
            SpecToken::Word(nw) => match plain_ident_spec(nw) {
                None => Err("xsh: syntax error: bad 'for' variable name"@),
                Some(var) => {
                    let p3 = skip_nl(ts, adv(ts, p1));
                    let (words, p6) = if keyword_at(ts, p3) == Some("in"@) {
                        let (ws, p5) = for_words(ts, adv(ts, p3), Seq::empty());
                        (ws, if 0 <= p5 < ts.len() && (ts[p5] is Semi || ts[p5] is Newline) {
                            adv(ts, p5)
                        } else {
                            p5
                        })
                    } else {
                        (Seq::empty(), p3)
                    };
                    let p7 = skip_nl(ts, p6);
                    if p < p7 < ts.len() {
                        match do_done_spec(ts, p7) {
                            Err(e) => Err(e),
                            Ok((body, r)) => Ok((SpecNode::For { var, words, body }, r)),
                        }
                    } else {
                        Err(Seq::empty())
                    }
                },
            },
            _ => Err("xsh: syntax error: expected word"@),
        }
    }
}

/// `while ... do ... done` (or `until`) at position `p`.
pub open spec fn while_spec(ts: Seq<SpecToken>, p: int, until: bool) -> Result<(SpecNode, int), Seq<char>>
    decreases ts.len() - p, 5int,
{
    if p < 0 || p + 1 >= ts.len() {
        Err(Seq::empty())
    } else {
        match stmts_spec(ts, p + 1, Stop::Do, Seq::empty()) {
            Err(e) => Err(e),
            Ok((cond, q)) => if p < q < ts.len() {
                match do_done_spec(ts, q) {
                    Err(e) => Err(e),
                    Ok((body, r)) => Ok((SpecNode::While { cond, body, until }, r)),
                }
            } else {
                Err(Seq::empty())
            },
        }
    }
}

/// A function body `{ ... }` where `q` should hold the `{`.
pub open spec fn fn_body_spec(ts: Seq<SpecToken>, q: int) -> Result<(Seq<SpecNode>, int), Seq<char>>
    decreases ts.len() - q, 4int,
{
    if q < 0 || q >= ts.len() || !(ts[q] is LBrace) {
        Err("xsh: syntax error: expected '{' after function name"@)
    } else if q + 1 < ts.len() {
        match stmts_spec(ts, q + 1, Stop::Brace, Seq::empty()) {
            Err(e) => Err(e),
            Ok((body, r)) => if 0 <= r < ts.len() && ts[r] is RBrace {
                Ok((body, adv(ts, r)))
            } else {
                Err("xsh: syntax error: expected '}'"@)
            },
        }
    } else {
        Err(Seq::empty())
    }
}

/// `function NAME [()] { ... }` at position `p`.
pub open spec fn function_kw_spec(ts: Seq<SpecToken>, p: int) -> Result<(SpecNode, int), Seq<char>>
    decreases ts.len() - p, 5int,
{
    if p < 0 || p + 1 >= ts.len() {
        Err(Seq::empty())
    } else {
        let p1 = p + 1;
        match ts[p1] {
            SpecToken::Word(nw) => match plain_ident_spec(nw) {
                None => Err("xsh: syntax error: bad function name"@),
                Some(name) => {
                    let p2 = adv(ts, p1);
                    if ts[p2] is LParen && !(ts[adv(ts, p2)] is RParen) {
                        Err("xsh: syntax error: expected ')'"@)
                    } else {
                        let p4 = if ts[p2] is LParen { adv(ts, adv(ts, p2)) } else { p2 };
                        let p5 = skip_nl(ts, p4);
                        if p < p5 < ts.len() {
                            match fn_body_spec(ts, p5) {
                                Err(e) => Err(e),
                                Ok((body, r)) => Ok((SpecNode::FunctionDef { name, body }, r)),
                            }
                        } else {
                            Err(Seq::empty())
                        }
                    }
                },
            },
            _ => Err("xsh: syntax error: expected word"@),
        }
    }
}

/// `NAME() { ... }` or a simple command, at position `p`.
pub open spec fn simple_or_funcdef_spec(ts: Seq<SpecToken>, p: int) -> Result<(SpecNode, int), Seq<char>>
    decreases ts.len() - p, 5int,
{
    if p < 0 || p >= ts.len() {
        Err(Seq::empty())
    } else if ts[p] is Word && plain_ident_spec(ts[p]->Word_0) is Some && p + 2 < ts.len() && ts[p + 1] is LParen
        && ts[p + 2] is RParen {
        let p4 = skip_nl(ts, adv(ts, p + 2));
        if p < p4 < ts.len() {
            match fn_body_spec(ts, p4) {
                Err(e) => Err(e),
                Ok((body, r)) => Ok((
                    SpecNode::FunctionDef { name: plain_ident_spec(ts[p]->Word_0)->0, body },
                    r,
                )),
            }
        } else {
            Err(Seq::empty())
        }
    } else {
        simple_spec(ts, p, Seq::empty(), Seq::empty(), Seq::empty(), false)
    }
}

/// A whole program: its statements, or the message of the first syntax error.
pub open spec fn parse_spec(ts: Seq<SpecToken>) -> Result<Seq<SpecNode>, Seq<char>> {
    match stmts_spec(ts, 0, Stop::Top, Seq::empty()) {
        Ok((nodes, _)) => Ok(nodes),
        Err(e) => Err(e),
    }
}


/// Parses a whole token sequence into statements.
pub fn parse(tokens: Vec<Token>) -> (r: Result<Vec<Node>, String>)
    requires
        wf_tokens(tokens_view(tokens@)),
    ensures
        program_result(r) == parse_spec(tokens_view(tokens@)),
{
    let mut p = Parser::new(tokens);
    p.parse_program()
}

// ----- words -----

/// A copy of a word.
#[verifier::loop_isolation(false)]
pub fn clone_word(w: &Word) -> (r: Word)
    ensures
        word_view(r@) == word_view(w@),
{
    let mut r: Word = Vec::new();
    let mut i: usize = 0;
    while i < w.len()
        invariant
            i <= w@.len(),
            word_view(r@) == word_view(w@).subrange(0, i as int),
        decreases w.len() - i,
    {
        let p = match &w[i] {
            WordPart::Literal(s) => WordPart::Literal(s.clone()),
            WordPart::Var(s) => WordPart::Var(s.clone()),
            WordPart::CmdSub(s) => WordPart::CmdSub(s.clone()),
            WordPart::Arith(s) => WordPart::Arith(s.clone()),
        };
        assert(p@ == w@[i as int]@);
        r.push(p);
        i = i + 1;
        assert(word_view(r@) =~= word_view(w@).subrange(0, i as int));
    }
    assert(word_view(w@).subrange(0, w@.len() as int) =~= word_view(w@));
    r
}

/// Whether the characters form a name.
pub fn is_valid_ident(s: &[char]) -> (r: bool)
    ensures
        r == is_valid_ident_spec(s@),
{
    if s.len() == 0 {
        return false;
    }
    if !(is_alphabetic(s[0]) || s[0] == '_') {
        return false;
    }
    let mut i: usize = 1;
    while i < s.len()
        invariant
            1 <= i <= s@.len(),
            forall|j: int| 1 <= j < i ==> is_name_char(#[trigger] s@[j]),
        decreases s.len() - i,
    {
        if !(is_alphanumeric(s[i]) || s[i] == '_') {
            assert(!is_name_char(s@[i as int]));
            return false;
        }
        i = i + 1;
    }
    true
}

/// The text of a word made of a single literal part.
fn plain_literal(w: &Word) -> (r: Option<&String>)
    ensures
        match r {
            Some(s) => plain_literal_spec(word_view(w@)) == Some(s@),
            None => plain_literal_spec(word_view(w@)) is None,
        },
{
    if w.len() == 1 {
        match &w[0] {
            WordPart::Literal(s) => Some(s),
            _ => None,
        }
    } else {
        None
    }
}

/// The name a word spells, when it is a plain literal that is a valid name.
fn is_plain_ident(w: &Word) -> (r: Option<String>)
    ensures
        match r {
            Some(s) => plain_ident_spec(word_view(w@)) == Some(s@),
            None => plain_ident_spec(word_view(w@)) is None,
        },
{
    match plain_literal(w) {
        Some(s) => {
            let cs = chars_of(s.as_str());
            if is_valid_ident(cs.as_slice()) {
                Some(s.clone())
            } else {
                None
            }
        },
        None => None,
    }
}

/// Whether the text is a reserved word.
fn is_keyword_str(s: &str) -> (r: bool)
    ensures
        r == is_keyword(s@),
{
    str_eq(s, "if") || str_eq(s, "then") || str_eq(s, "elif") || str_eq(s, "else") || str_eq(s, "fi")
        || str_eq(s, "for") || str_eq(s, "in") || str_eq(s, "do") || str_eq(s, "done") || str_eq(s, "while")
        || str_eq(s, "until") || str_eq(s, "function") || str_eq(s, "return") || str_eq(s, "break")
        || str_eq(s, "continue")
}

/// Splits `NAME=value` at the start of a word into the name and the value.
#[verifier::loop_isolation(false)]
pub fn try_split_assignment(w: &Word) -> (r: Option<(String, Word)>)
    ensures
        match r {
            Some((name, val)) => split_assignment_spec(word_view(w@)) == Some((name@, word_view(val@))),
            None => split_assignment_spec(word_view(w@)) is None,
        },
{
    if w.len() == 0 {
        return None;
    }
    match &w[0] {
        WordPart::Literal(s) => {
            let cs = chars_of(s.as_str());
            let n = cs.len();
            let mut e: usize = 0;
            while e < n && cs[e] != '='
                invariant
                    e <= n,
                    n == cs@.len(),
                    cs@ == s@,
                    first_index(cs@, e as int, '=') == first_index(cs@, 0, '='),
                decreases n - e,
            {
                e = e + 1;
            }
            if e == n {
                return None;
            }
            let mut name: Vec<char> = Vec::new();
            let mut i: usize = 0;
            while i < e
                invariant
                    i <= e < n,
                    n == cs@.len(),
                    name@ == cs@.subrange(0, i as int),
                decreases e - i,
            {
                name.push(cs[i]);
                i = i + 1;
                assert(name@ =~= cs@.subrange(0, i as int));
            }
            if name.len() == 0 || !is_valid_ident(name.as_slice()) {
                return None;
            }
            let mut rest: Vec<char> = Vec::new();
            let mut j: usize = e + 1;
            while j < n
                invariant
                    e + 1 <= j <= n,
                    n == cs@.len(),
                    rest@ == cs@.subrange(e + 1, j as int),
                decreases n - j,
            {
                rest.push(cs[j]);
                j = j + 1;
                assert(rest@ =~= cs@.subrange(e + 1, j as int));
            }
            let mut val: Word = Vec::new();
            val.push(WordPart::Literal(string_from_chars(rest.as_slice())));
            let mut k: usize = 1;
            while k < w.len()
                invariant
                    1 <= k <= w@.len(),
                    word_view(val@) == seq![SpecWordPart::Literal(cs@.subrange(e + 1, n as int))] + word_view(
                        w@,
                    ).subrange(1, k as int),
                decreases w.len() - k,
            {
                let p = match &w[k] {
                    WordPart::Literal(s) => WordPart::Literal(s.clone()),
                    WordPart::Var(s) => WordPart::Var(s.clone()),
                    WordPart::CmdSub(s) => WordPart::CmdSub(s.clone()),
                    WordPart::Arith(s) => WordPart::Arith(s.clone()),
                };
                assert(p@ == w@[k as int]@);
                let ghost before = val@;
                val.push(p);
                assert(word_view(val@) =~= word_view(before).push(p@));
                assert(word_view(w@).subrange(1, k + 1) =~= word_view(w@).subrange(1, k as int).push(p@));
                k = k + 1;
                assert(word_view(val@) =~= seq![SpecWordPart::Literal(cs@.subrange(e + 1, n as int))]
                    + word_view(w@).subrange(1, k as int));
            }
            assert(word_view(w@).subrange(1, w@.len() as int) =~= word_view(w@).drop_first());
            Some((string_from_chars(name.as_slice()), val))
        },
        _ => None,
    }
}


// ----- the model of results -----

/// Model of the items of an and-or list.
pub open spec fn items_view(items: Seq<(Node, Sep)>) -> Seq<(SpecNode, Sep)> {
    items.map_values(|x: (Node, Sep)| (node_view(x.0), x.1))
}

/// Model of the branches of an `if`.
pub open spec fn branches_view(b: Seq<(Vec<Node>, Vec<Node>)>) -> Seq<(Seq<SpecNode>, Seq<SpecNode>)> {
    b.map_values(|x: (Vec<Node>, Vec<Node>)| (nodes_view(x.0@), nodes_view(x.1@)))
}

/// Model of a result that carries a node and a position.
pub open spec fn node_result(r: Result<Node, String>, pos: int) -> Result<(SpecNode, int), Seq<char>> {
    match r {
        Ok(n) => Ok((node_view(n), pos)),
        Err(e) => Err(e@),
    }
}

/// Model of a result that carries nodes and a position.
pub open spec fn nodes_result(r: Result<Vec<Node>, String>, pos: int) -> Result<(Seq<SpecNode>, int), Seq<char>> {
    match r {
        Ok(v) => Ok((nodes_view(v@), pos)),
        Err(e) => Err(e@),
    }
}

/// Model of the parser's result.
pub open spec fn program_result(r: Result<Vec<Node>, String>) -> Result<Seq<SpecNode>, Seq<char>> {
    match r {
        Ok(v) => Ok(nodes_view(v@)),
        Err(e) => Err(e@),
    }
}

proof fn lemma_view_pipeline(cmds: Vec<Node>, neg: bool)
    ensures
        node_view(Node::Pipeline(cmds, neg)) == SpecNode::Pipeline(nodes_view(cmds@), neg),
{
    assert(node_view(Node::Pipeline(cmds, neg))->Pipeline_0 =~= nodes_view(cmds@));
}

proof fn lemma_view_list(items: Vec<(Node, Sep)>)
    ensures
        node_view(Node::List(items)) == SpecNode::List(items_view(items@)),
{
    assert(node_view(Node::List(items))->List_0 =~= items_view(items@));
}

proof fn lemma_view_subshell(body: Vec<Node>)
    ensures
        node_view(Node::Subshell(body)) == SpecNode::Subshell(nodes_view(body@)),
{
    assert(node_view(Node::Subshell(body))->Subshell_0 =~= nodes_view(body@));
}

proof fn lemma_view_function(name: String, body: Vec<Node>)
    ensures
        node_view(Node::FunctionDef { name, body }) == (SpecNode::FunctionDef { name: name@, body: nodes_view(body@) }),
{
    assert(node_view(Node::FunctionDef { name, body })->FunctionDef_body =~= nodes_view(body@));
}

proof fn lemma_view_while(cond: Vec<Node>, body: Vec<Node>, until: bool)
    ensures
        node_view(Node::While { cond, body, until }) == (SpecNode::While {
            cond: nodes_view(cond@),
            body: nodes_view(body@),
            until,
        }),
{
    let v = node_view(Node::While { cond, body, until });
    assert(v->While_cond =~= nodes_view(cond@));
    assert(v->While_body =~= nodes_view(body@));
}

proof fn lemma_view_for(var: String, words: Vec<Word>, body: Vec<Node>)
    ensures
        node_view(Node::For { var, words, body }) == (SpecNode::For {
            var: var@,
            words: words_view(words@),
            body: nodes_view(body@),
        }),
{
    assert(node_view(Node::For { var, words, body })->For_body =~= nodes_view(body@));
}

proof fn lemma_view_if(branches: Vec<(Vec<Node>, Vec<Node>)>, else_branch: Option<Vec<Node>>)
    ensures
        node_view(Node::If { branches, else_branch }) == (SpecNode::If {
            branches: branches_view(branches@),
            else_branch: match else_branch {
                Some(b) => Some(nodes_view(b@)),
                None => None,
            },
        }),
{
    let v = node_view(Node::If { branches, else_branch });
    assert forall|i: int| 0 <= i < branches@.len() implies #[trigger] v->If_branches[i] == branches_view(branches@)[i] by {
        assert(v->If_branches[i].0 =~= nodes_view(branches@[i].0@));
        assert(v->If_branches[i].1 =~= nodes_view(branches@[i].1@));
    }
    assert(v->If_branches =~= branches_view(branches@));
    match else_branch {
        Some(b) => {
            assert(v->If_else_branch->0 =~= nodes_view(b@));
        },
        None => {},
    }
}

proof fn lemma_nodes_push(v: Seq<Node>, n: Node)
    ensures
        nodes_view(v.push(n)) == nodes_view(v).push(node_view(n)),
{
    assert(nodes_view(v.push(n)) =~= nodes_view(v).push(node_view(n)));
}

/// Model of the assignments of a simple command.
pub open spec fn assigns_view(a: Seq<(String, Word)>) -> Seq<(Seq<char>, SpecWord)> {
    a.map_values(|x: (String, Word)| (x.0@, word_view(x.1@)))
}

/// Model of the redirections of a simple command.
pub open spec fn redirects_view(r: Seq<Redirect>) -> Seq<SpecRedirect> {
    r.map_values(|x: Redirect| x@)
}

/// The message for a missing reserved word.
fn expected_err(k: &str) -> (r: String)
    ensures
        r@ == expected_msg(k@),
{
    let m = concat_str("xsh: syntax error: expected '", k);
    concat_str(m.as_str(), "'")
}

/// The name `Debug` gives a token's variant.
fn token_debug_name(t: &Token) -> (r: String)
    ensures
        r@ == token_name(t@),
{
    match t {
        Token::Word(_) => "Word".to_string(),
        Token::Pipe => "Pipe".to_string(),
        Token::AndIf => "AndIf".to_string(),
        Token::OrIf => "OrIf".to_string(),
        Token::Semi => "Semi".to_string(),
        Token::DSemi => "DSemi".to_string(),
        Token::Amp => "Amp".to_string(),
        Token::Newline => "Newline".to_string(),
        Token::LBrace => "LBrace".to_string(),
        Token::RBrace => "RBrace".to_string(),
        Token::LParen => "LParen".to_string(),
        Token::RParen => "RParen".to_string(),
        Token::Bang => "Bang".to_string(),
        Token::Less => "Less".to_string(),
        Token::Great => "Great".to_string(),
        Token::DGreat => "DGreat".to_string(),
        Token::ErrGreat => "ErrGreat".to_string(),
        Token::ErrDGreat => "ErrDGreat".to_string(),
        Token::AndGreat => "AndGreat".to_string(),
        Token::DupErrToOut => "DupErrToOut".to_string(),
        Token::DupOutToErr => "DupOutToErr".to_string(),
        Token::Eof => "Eof".to_string(),
    }
}

// ----- the parser -----

/// A recursive-descent parser over a token sequence.
pub struct Parser {
    tokens: Vec<Token>,
    pos: usize,
}

impl Parser {
    /// The tokens being parsed.
    pub closed spec fn spec_tokens(&self) -> Seq<SpecToken> {
        tokens_view(self.tokens@)
    }

    /// The index of the current token.
    pub closed spec fn position(&self) -> int {
        self.pos as int
    }

    /// The tokens end with `Eof` and the cursor is on one of them.
    pub closed spec fn wf(&self) -> bool {
        wf_tokens(self.spec_tokens()) && self.pos < self.tokens@.len()
    }

    pub fn new(tokens: Vec<Token>) -> (p: Parser)
        ensures
            p.spec_tokens() == tokens_view(tokens@),
            p.position() == 0,
            wf_tokens(tokens_view(tokens@)) ==> p.wf(),
    {
        Parser { tokens, pos: 0 }
    }

    /// The statements of the whole program from the cursor on.
    pub fn parse_program(&mut self) -> (r: Result<Vec<Node>, String>)
        requires
            old(self).wf(),
        ensures
            final(self).wf(),
            final(self).spec_tokens() == old(self).spec_tokens(),
            nodes_result(r, final(self).position()) == stmts_spec(
                old(self).spec_tokens(),
                old(self).position(),
                Stop::Top,
                Seq::empty(),
            ),
    {
        self.parse_stmt_list(Stop::Top)
    }

    /// The current token.
    fn peek(&self) -> (t: &Token)
        requires
            self.wf(),
        ensures
            t@ == self.spec_tokens()[self.position()],
    {
        &self.tokens[self.pos]
    }

    fn advance(&mut self)
        requires
            old(self).wf(),
        ensures
            final(self).wf(),
            final(self).tokens == old(self).tokens,
            final(self).pos == adv(old(self).spec_tokens(), old(self).pos as int),
    {
        if self.tokens.len() - self.pos > 1 {
            self.pos = self.pos + 1;
        }
    }

    fn skip_newlines(&mut self)
        requires
            old(self).wf(),
        ensures
            final(self).wf(),
            final(self).tokens == old(self).tokens,
            final(self).pos == skip_nl(old(self).spec_tokens(), old(self).pos as int),
            final(self).pos >= old(self).pos,
    {
        let ghost ts = self.spec_tokens();
        let ghost p0 = self.pos as int;
        while self.tokens.len() - self.pos > 1 && matches!(self.tokens[self.pos], Token::Newline)
            invariant
                self.wf(),
                self.tokens == old(self).tokens,
                ts == self.spec_tokens(),
                p0 <= self.pos,
                skip_nl(ts, self.pos as int) == skip_nl(ts, p0),
            decreases self.tokens.len() - self.pos,
        {
            self.pos = self.pos + 1;
        }
    }

    /// Whether the current token is the reserved word `k`.
    fn at_kw(&self, k: &str) -> (r: bool)
        requires
            self.wf(),
        ensures
            r == (keyword_at(self.spec_tokens(), self.position()) == Some(k@)),
    {
        match &self.tokens[self.pos] {
            Token::Word(w) => match plain_literal(w) {
                Some(s) => is_keyword_str(s.as_str()) && str_eq(s.as_str(), k),
                None => false,
            },
            _ => false,
        }
    }

    /// Whether the statement list ends at the current token.
    fn at_stop(&self, stop: Stop) -> (r: bool)
        requires
            self.wf(),
        ensures
            r == ((keyword_at(self.spec_tokens(), self.position()) is Some && stops_at(
                stop,
                keyword_at(self.spec_tokens(), self.position())->0,
            )) || (stop == Stop::Brace && self.spec_tokens()[self.position()] is RBrace)),
    {
        match stop {
            Stop::Top => false,
            Stop::Then => self.at_kw("then"),
            Stop::ElseFi => self.at_kw("elif") || self.at_kw("else") || self.at_kw("fi"),
            Stop::Fi => self.at_kw("fi"),
            Stop::Do => self.at_kw("do"),
            Stop::Done => self.at_kw("done"),
            Stop::Brace => matches!(self.tokens[self.pos], Token::RBrace),
        }
    }

    #[verifier::loop_isolation(false)]
    fn parse_stmt_list(&mut self, stop: Stop) -> (r: Result<Vec<Node>, String>)
        requires
            old(self).wf(),
        ensures
            final(self).wf(),
            final(self).tokens == old(self).tokens,
            final(self).pos >= old(self).pos,
            nodes_result(r, final(self).pos as int) == stmts_spec(
                old(self).spec_tokens(),
                old(self).pos as int,
                stop,
                Seq::empty(),
            ),
        decreases old(self).tokens@.len() - old(self).pos, 9int,
    {
        let ghost ts = self.spec_tokens();
        let ghost p0 = self.pos as int;
        let mut nodes: Vec<Node> = Vec::new();
        assert(nodes_view(nodes@) =~= Seq::<SpecNode>::empty());
        loop
            invariant
                self.wf(),
                self.tokens == old(self).tokens,
                ts == self.spec_tokens(),
                p0 <= self.pos,
                stmts_spec(ts, self.pos as int, stop, nodes_view(nodes@)) == stmts_spec(ts, p0, stop, Seq::empty()),
            decreases self.tokens@.len() - self.pos,
        {
            if matches!(self.tokens[self.pos], Token::Newline | Token::Semi) {
                self.advance();
            } else if matches!(self.tokens[self.pos], Token::Eof) {
                return Ok(nodes);
            } else if self.at_stop(stop) {
                return Ok(nodes);
            } else {
                let node = match self.parse_and_or() {
                    Ok(n) => n,
                    Err(e) => {
                        return Err(e);
                    },
                };
                let node2 = if matches!(self.tokens[self.pos], Token::Amp) {
                    self.advance();
                    Node::Background(Box::new(node))
                } else {
                    node
                };
                if matches!(self.tokens[self.pos], Token::Semi | Token::Newline) {
                    self.advance();
                }
                proof {
                    lemma_nodes_push(nodes@, node2);
                }
                nodes.push(node2);
            }
        }
    }

    #[verifier::loop_isolation(false)]
    fn parse_and_or(&mut self) -> (r: Result<Node, String>)
        requires
            old(self).wf(),
        ensures
            final(self).wf(),
            final(self).tokens == old(self).tokens,
            final(self).pos >= old(self).pos,
            r is Ok ==> final(self).pos > old(self).pos,
            node_result(r, final(self).pos as int) == and_or_spec(old(self).spec_tokens(), old(self).pos as int),
        decreases old(self).tokens@.len() - old(self).pos, 8int,
    {
        let ghost ts = self.spec_tokens();
        let ghost p0 = self.pos as int;
        let first = match self.parse_pipeline() {
            Ok(n) => n,
            Err(e) => {
                return Err(e);
            },
        };
        let mut current = first;
        let mut items: Vec<(Node, Sep)> = Vec::new();
        assert(items_view(items@) =~= Seq::<(SpecNode, Sep)>::empty());
        loop
            invariant
                self.wf(),
                self.tokens == old(self).tokens,
                ts == self.spec_tokens(),
                p0 < self.pos,
                and_or_rest(ts, self.pos as int, node_view(current), items_view(items@)) == and_or_spec(ts, p0),
            decreases self.tokens@.len() - self.pos,
        {
            let sep = match &self.tokens[self.pos] {
                Token::AndIf => Sep::And,
                Token::OrIf => Sep::Or,
                _ => {
                    break;
                },
            };
            self.advance();
            self.skip_newlines();
            let next = match self.parse_pipeline() {
                Ok(n) => n,
                Err(e) => {
                    return Err(e);
                },
            };
            let ghost before = items@;
            items.push((current, sep));
            assert(items_view(items@) =~= items_view(before).push((node_view(items@.last().0), sep)));
            current = next;
        }
        if items.len() == 0 {
            Ok(current)
        } else {
            let ghost before = items@;
            items.push((current, Sep::Sequential));
            assert(items_view(items@) =~= items_view(before).push((node_view(items@.last().0), Sep::Sequential)));
            proof {
                lemma_view_list(items);
            }
            Ok(Node::List(items))
        }
    }

    #[verifier::loop_isolation(false)]
    fn parse_pipeline(&mut self) -> (r: Result<Node, String>)
        requires
            old(self).wf(),
        ensures
            final(self).wf(),
            final(self).tokens == old(self).tokens,
            final(self).pos >= old(self).pos,
            r is Ok ==> final(self).pos > old(self).pos,
            node_result(r, final(self).pos as int) == pipeline_spec(old(self).spec_tokens(), old(self).pos as int),
        decreases old(self).tokens@.len() - old(self).pos, 7int,
    {
        let ghost ts = self.spec_tokens();
        let ghost p0 = self.pos as int;
        let neg = matches!(self.tokens[self.pos], Token::Bang);
        if neg {
            self.advance();
        }
        let first = match self.parse_command() {
            Ok(n) => n,
            Err(e) => {
                return Err(e);
            },
        };
        let mut cmds: Vec<Node> = Vec::new();
        cmds.push(first);
        assert(nodes_view(cmds@) =~= seq![node_view(cmds@[0])]);
        loop
            invariant
                self.wf(),
                self.tokens == old(self).tokens,
                ts == self.spec_tokens(),
                p0 < self.pos,
                cmds@.len() >= 1,
                pipeline_rest(ts, self.pos as int, nodes_view(cmds@), neg) == pipeline_spec(ts, p0),
            decreases self.tokens@.len() - self.pos,
        {
            if !matches!(self.tokens[self.pos], Token::Pipe) {
                break;
            }
            self.advance();
            self.skip_newlines();
            let c = match self.parse_command() {
                Ok(n) => n,
                Err(e) => {
                    return Err(e);
                },
            };
            proof {
                lemma_nodes_push(cmds@, c);
            }
            cmds.push(c);
        }
        if cmds.len() == 1 && !neg {
            let c = cmds.pop().unwrap();
            Ok(c)
        } else {
            proof {
                lemma_view_pipeline(cmds, neg);
            }
            Ok(Node::Pipeline(cmds, neg))
        }
    }

    fn parse_command(&mut self) -> (r: Result<Node, String>)
        requires
            old(self).wf(),
        ensures
            final(self).wf(),
            final(self).tokens == old(self).tokens,
            final(self).pos >= old(self).pos,
            r is Ok ==> final(self).pos > old(self).pos,
            node_result(r, final(self).pos as int) == command_spec(old(self).spec_tokens(), old(self).pos as int),
        decreases old(self).tokens@.len() - old(self).pos, 6int,
    {
        if self.at_kw("if") {
            return self.parse_if();
        }
        if self.at_kw("for") {
            return self.parse_for();
        }
        if self.at_kw("while") {
            return self.parse_while(false);
        }
        if self.at_kw("until") {
            return self.parse_while(true);
        }
        if self.at_kw("function") {
            return self.parse_function_kw();
        }
        if self.at_kw("return") {
            self.advance();
            if matches!(self.tokens[self.pos], Token::Word(_)) {
                let w = match self.expect_word() {
                    Ok(w) => w,
                    Err(e) => {
                        return Err(e);
                    },
                };
                return Ok(Node::Return(Some(w)));
            } else {
                return Ok(Node::Return(None));
            }
        }
        if self.at_kw("break") {
            self.advance();
            return Ok(Node::Break);
        }
        if self.at_kw("continue") {
            self.advance();
            return Ok(Node::Continue);
        }
        if matches!(self.tokens[self.pos], Token::LBrace) {
            self.advance();
            let body = match self.parse_stmt_list(Stop::Brace) {
                Ok(b) => b,
                Err(e) => {
                    return Err(e);
                },
            };
            if !matches!(self.tokens[self.pos], Token::RBrace) {
                return Err("xsh: syntax error: expected '}'".to_string());
            }
            self.advance();
            proof {
                lemma_view_subshell(body);
            }
            return Ok(Node::Subshell(body));
        }
        self.parse_simple_or_funcdef()
    }

    /// Takes the current token, which should be a word.
    fn expect_word(&mut self) -> (r: Result<Word, String>)
        requires
            old(self).wf(),
        ensures
            final(self).wf(),
            final(self).tokens == old(self).tokens,
            final(self).pos == adv(old(self).spec_tokens(), old(self).pos as int),
            match r {
                Ok(w) => old(self).spec_tokens()[old(self).pos as int] == SpecToken::Word(word_view(w@)),
                Err(e) => !(old(self).spec_tokens()[old(self).pos as int] is Word) && e@
                    == "xsh: syntax error: expected word"@,
            },
    {
        let r = match &self.tokens[self.pos] {
            Token::Word(w) => Ok(clone_word(w)),
            _ => Err("xsh: syntax error: expected word".to_string()),
        };
        self.advance();
        r
    }

    #[verifier::loop_isolation(false)]
    fn parse_if(&mut self) -> (r: Result<Node, String>)
        requires
            old(self).wf(),
            keyword_at(old(self).spec_tokens(), old(self).pos as int) is Some,
        ensures
            final(self).wf(),
            final(self).tokens == old(self).tokens,
            final(self).pos >= old(self).pos,
            r is Ok ==> final(self).pos > old(self).pos,
            node_result(r, final(self).pos as int) == if_spec(old(self).spec_tokens(), old(self).pos as int),
        decreases old(self).tokens@.len() - old(self).pos, 5int,
    {
        let ghost ts = self.spec_tokens();
        let ghost p0 = self.pos as int;
        self.advance();
        let cond = match self.parse_stmt_list(Stop::Then) {
            Ok(b) => b,
            Err(e) => {
                return Err(e);
            },
        };
        if !self.at_kw("then") {
            return Err(expected_err("then"));
        }
        self.advance();
        let body = match self.parse_stmt_list(Stop::ElseFi) {
            Ok(b) => b,
            Err(e) => {
                return Err(e);
            },
        };
        let mut branches: Vec<(Vec<Node>, Vec<Node>)> = Vec::new();
        branches.push((cond, body));
        assert(branches_view(branches@) =~= seq![(nodes_view(cond@), nodes_view(body@))]);
        loop
            invariant
                self.wf(),
                self.tokens == old(self).tokens,
                ts == self.spec_tokens(),
                p0 < self.pos,
                if_rest(ts, self.pos as int, branches_view(branches@)) == if_spec(ts, p0),
            decreases self.tokens@.len() - self.pos,
        {
            if self.at_kw("elif") {
                self.advance();
                let c = match self.parse_stmt_list(Stop::Then) {
                    Ok(b) => b,
                    Err(e) => {
                        return Err(e);
                    },
                };
                if !self.at_kw("then") {
                    return Err(expected_err("then"));
                }
                self.advance();
                let b = match self.parse_stmt_list(Stop::ElseFi) {
                    Ok(b) => b,
                    Err(e) => {
                        return Err(e);
                    },
                };
                let ghost before = branches@;
                branches.push((c, b));
                assert(branches_view(branches@) =~= branches_view(before).push((nodes_view(c@), nodes_view(b@))));
            } else if self.at_kw("else") {
                self.advance();
                let b = match self.parse_stmt_list(Stop::Fi) {
                    Ok(b) => b,
                    Err(e) => {
                        return Err(e);
                    },
                };
                if !self.at_kw("fi") {
                    return Err(expected_err("fi"));
                }
                self.advance();
                proof {
                    lemma_view_if(branches, Some(b));
                }
                return Ok(Node::If { branches, else_branch: Some(b) });
            } else if self.at_kw("fi") {
                self.advance();
                proof {
                    lemma_view_if(branches, None);
                }
                return Ok(Node::If { branches, else_branch: None });
            } else {
                return Err(expected_err("fi"));
            }
        }
    }

    /// `do ... done`.
    fn parse_do_done(&mut self) -> (r: Result<Vec<Node>, String>)
        requires
            old(self).wf(),
        ensures
            final(self).wf(),
            final(self).tokens == old(self).tokens,
            final(self).pos >= old(self).pos,
            r is Ok ==> final(self).pos > old(self).pos,
            nodes_result(r, final(self).pos as int) == do_done_spec(old(self).spec_tokens(), old(self).pos as int),
        decreases old(self).tokens@.len() - old(self).pos, 4int,
    {
        if !self.at_kw("do") {
            return Err(expected_err("do"));
        }
        self.advance();
        let body = match self.parse_stmt_list(Stop::Done) {
            Ok(b) => b,
            Err(e) => {
                return Err(e);
            },
        };
        if !self.at_kw("done") {
            return Err(expected_err("done"));
        }
        self.advance();
        Ok(body)
    }

    /// `{ ... }` after a function name.
    fn parse_fn_body(&mut self) -> (r: Result<Vec<Node>, String>)
        requires
            old(self).wf(),
        ensures
            final(self).wf(),
            final(self).tokens == old(self).tokens,
            final(self).pos >= old(self).pos,
            r is Ok ==> final(self).pos > old(self).pos,
            nodes_result(r, final(self).pos as int) == fn_body_spec(old(self).spec_tokens(), old(self).pos as int),
        decreases old(self).tokens@.len() - old(self).pos, 4int,
    {
        if !matches!(self.tokens[self.pos], Token::LBrace) {
            return Err("xsh: syntax error: expected '{' after function name".to_string());
        }
        self.advance();
        let body = match self.parse_stmt_list(Stop::Brace) {
            Ok(b) => b,
            Err(e) => {
                return Err(e);
            },
        };
        if !matches!(self.tokens[self.pos], Token::RBrace) {
            return Err("xsh: syntax error: expected '}'".to_string());
        }
        self.advance();
        Ok(body)
    }

    #[verifier::loop_isolation(false)]
    fn parse_for(&mut self) -> (r: Result<Node, String>)
        requires
            old(self).wf(),
            keyword_at(old(self).spec_tokens(), old(self).pos as int) is Some,
        ensures
            final(self).wf(),
            final(self).tokens == old(self).tokens,
            final(self).pos >= old(self).pos,
            r is Ok ==> final(self).pos > old(self).pos,
            node_result(r, final(self).pos as int) == for_spec(old(self).spec_tokens(), old(self).pos as int),
        decreases old(self).tokens@.len() - old(self).pos, 5int,
    {
        let ghost ts = self.spec_tokens();
        let ghost p0 = self.pos as int;
        self.advance();
        let name_word = match self.expect_word() {
            Ok(w) => w,
            Err(e) => {
                return Err(e);
            },
        };
        let var = match is_plain_ident(&name_word) {
            Some(v) => v,
            None => {
                return Err("xsh: syntax error: bad 'for' variable name".to_string());
            },
        };
        self.skip_newlines();
        let mut words: Vec<Word> = Vec::new();
        assert(words_view(words@) =~= Seq::<SpecWord>::empty());
        if self.at_kw("in") {
            self.advance();
            let ghost q = self.pos as int;
            while self.tokens.len() - self.pos > 1 && matches!(self.tokens[self.pos], Token::Word(_))
                invariant
                    self.wf(),
                    self.tokens == old(self).tokens,
                    ts == self.spec_tokens(),
                    q <= self.pos,
                    for_words(ts, self.pos as int, words_view(words@)) == for_words(ts, q, Seq::empty()),
                decreases self.tokens@.len() - self.pos,
            {
                let w = match &self.tokens[self.pos] {
                    Token::Word(w) => clone_word(w),
                    _ => Vec::new(),
                };
                let ghost before = words@;
                words.push(w);
                assert(words_view(words@) =~= words_view(before).push(word_view(w@)));
                self.advance();
            }
            if matches!(self.tokens[self.pos], Token::Semi | Token::Newline) {
                self.advance();
            }
        }
        self.skip_newlines();
        let body = match self.parse_do_done() {
            Ok(b) => b,
            Err(e) => {
                return Err(e);
            },
        };
        proof {
            lemma_view_for(var, words, body);
        }
        Ok(Node::For { var, words, body })
    }

    fn parse_while(&mut self, until: bool) -> (r: Result<Node, String>)
        requires
            old(self).wf(),
            keyword_at(old(self).spec_tokens(), old(self).pos as int) is Some,
        ensures
            final(self).wf(),
            final(self).tokens == old(self).tokens,
            final(self).pos >= old(self).pos,
            r is Ok ==> final(self).pos > old(self).pos,
            node_result(r, final(self).pos as int) == while_spec(old(self).spec_tokens(), old(self).pos as int, until),
        decreases old(self).tokens@.len() - old(self).pos, 5int,
    {
        self.advance();
        let cond = match self.parse_stmt_list(Stop::Do) {
            Ok(b) => b,
            Err(e) => {
                return Err(e);
            },
        };
        let body = match self.parse_do_done() {
            Ok(b) => b,
            Err(e) => {
                return Err(e);
            },
        };
        proof {
            lemma_view_while(cond, body, until);
        }
        Ok(Node::While { cond, body, until })
    }

    fn parse_function_kw(&mut self) -> (r: Result<Node, String>)
        requires
            old(self).wf(),
            keyword_at(old(self).spec_tokens(), old(self).pos as int) is Some,
        ensures
            final(self).wf(),
            final(self).tokens == old(self).tokens,
            final(self).pos >= old(self).pos,
            r is Ok ==> final(self).pos > old(self).pos,
            node_result(r, final(self).pos as int) == function_kw_spec(old(self).spec_tokens(), old(self).pos as int),
        decreases old(self).tokens@.len() - old(self).pos, 5int,
    {
        self.advance();
        let name_word = match self.expect_word() {
            Ok(w) => w,
            Err(e) => {
                return Err(e);
            },
        };
        let name = match is_plain_ident(&name_word) {
            Some(v) => v,
            None => {
                return Err("xsh: syntax error: bad function name".to_string());
            },
        };
        if matches!(self.tokens[self.pos], Token::LParen) {
            self.advance();
            if !matches!(self.tokens[self.pos], Token::RParen) {
                return Err("xsh: syntax error: expected ')'".to_string());
            }
            self.advance();
        }
        self.skip_newlines();
        let body = match self.parse_fn_body() {
            Ok(b) => b,
            Err(e) => {
                return Err(e);
            },
        };
        proof {
            lemma_view_function(name, body);
        }
        Ok(Node::FunctionDef { name, body })
    }

    fn parse_simple_or_funcdef(&mut self) -> (r: Result<Node, String>)
        requires
            old(self).wf(),
        ensures
            final(self).wf(),
            final(self).tokens == old(self).tokens,
            final(self).pos >= old(self).pos,
            r is Ok ==> final(self).pos > old(self).pos,
            node_result(r, final(self).pos as int) == simple_or_funcdef_spec(
                old(self).spec_tokens(),
                old(self).pos as int,
            ),
        decreases old(self).tokens@.len() - old(self).pos, 5int,
    {
        let ident = match &self.tokens[self.pos] {
            Token::Word(w) => is_plain_ident(w),
            _ => None,
        };
        match ident {
            Some(name) => {
                if self.tokens.len() - self.pos > 2 && matches!(self.tokens[self.pos + 1], Token::LParen)
                    && matches!(self.tokens[self.pos + 2], Token::RParen) {
                    self.advance();
                    self.advance();
                    self.advance();
                    self.skip_newlines();
                    let body = match self.parse_fn_body() {
                        Ok(b) => b,
                        Err(e) => {
                            return Err(e);
                        },
                    };
                    proof {
                        lemma_view_function(name, body);
                    }
                    return Ok(Node::FunctionDef { name, body });
                }
            },
            None => {},
        }
        self.parse_simple_command()
    }

    #[verifier::loop_isolation(false)]
    fn parse_simple_command(&mut self) -> (r: Result<Node, String>)
        requires
            old(self).wf(),
        ensures
            final(self).wf(),
            final(self).tokens == old(self).tokens,
            final(self).pos >= old(self).pos,
            r is Ok ==> final(self).pos > old(self).pos,
            node_result(r, final(self).pos as int) == simple_spec(
                old(self).spec_tokens(),
                old(self).pos as int,
                Seq::empty(),
                Seq::empty(),
                Seq::empty(),
                false,
            ),
    {
        let ghost ts = self.spec_tokens();
        let ghost p0 = self.pos as int;
        let mut assignments: Vec<(String, Word)> = Vec::new();
        let mut words: Vec<Word> = Vec::new();
        let mut redirects: Vec<Redirect> = Vec::new();
        let mut seen_word = false;
        assert(assigns_view(assignments@) =~= Seq::<(Seq<char>, SpecWord)>::empty());
        assert(words_view(words@) =~= Seq::<SpecWord>::empty());
        assert(redirects_view(redirects@) =~= Seq::<SpecRedirect>::empty());
        loop
            invariant
                self.wf(),
                self.tokens == old(self).tokens,
                ts == self.spec_tokens(),
                p0 <= self.pos,
                self.pos == p0 ==> assignments@.len() == 0 && words@.len() == 0 && redirects@.len() == 0,
                simple_spec(
                    ts,
                    self.pos as int,
                    assigns_view(assignments@),
                    words_view(words@),
                    redirects_view(redirects@),
                    seen_word,
                ) == simple_spec(ts, p0, Seq::empty(), Seq::empty(), Seq::empty(), false),
            decreases self.tokens@.len() - self.pos,
        {
            let kind = match &self.tokens[self.pos] {
                Token::Word(w) => {
                    if !seen_word {
                        match try_split_assignment(w) {
                            Some(a) => {
                                self.advance();
                                let ghost before = assignments@;
                                assignments.push(a);
                                assert(assigns_view(assignments@) =~= assigns_view(before).push((a.0@, word_view(a.1@))));
                                assert(simple_spec(ts, self.pos as int, assigns_view(assignments@), words_view(words@), redirects_view(redirects@), seen_word) == simple_spec(ts, p0, Seq::empty(), Seq::empty(), Seq::empty(), false));
                                continue;
                            },
                            None => {},
                        }
                    }
                    let wc = clone_word(w);
                    seen_word = true;
                    self.advance();
                    let ghost before = words@;
                    words.push(wc);
                    assert(words_view(words@) =~= words_view(before).push(word_view(wc@)));
                    assert(simple_spec(ts, self.pos as int, assigns_view(assignments@), words_view(words@), redirects_view(redirects@), seen_word) == simple_spec(ts, p0, Seq::empty(), Seq::empty(), Seq::empty(), false));
                    continue;
                },
                Token::Less => RedirectKind::In,
                Token::Great => RedirectKind::Out,
                Token::DGreat => RedirectKind::Append,
                Token::ErrGreat => RedirectKind::ErrOut,
                Token::ErrDGreat => RedirectKind::ErrAppend,
                Token::AndGreat => RedirectKind::Both,
                Token::DupErrToOut => RedirectKind::DupErrToOut,
                Token::DupOutToErr => RedirectKind::DupOutToErr,
                _ => {
                    break;
                },
            };
            let needs_target = !matches!(self.tokens[self.pos], Token::DupErrToOut | Token::DupOutToErr);
            let ghost q = self.pos as int;
            assert(redirect_of(ts[q]) == Some((kind, needs_target)));
            assert(q + 1 < ts.len());
            self.advance();
            let target = if needs_target {
                match self.expect_word() {
                    Ok(t) => t,
                    Err(e) => {
                        return Err(e);
                    },
                }
            } else {
                Vec::new()
            };
            let ghost before = redirects@;
            let rd = Redirect { kind, target };
            assert(word_view(rd.target@) == word_view(target@));
            redirects.push(rd);
            assert(redirects_view(redirects@) =~= redirects_view(before).push(rd@));
            if needs_target {
                assert(ts[q + 1] == SpecToken::Word(word_view(target@)));
                assert(q + 2 < ts.len());
                assert(self.pos == q + 2);
                assert(simple_spec(ts, q, assigns_view(assignments@), words_view(words@), redirects_view(before), seen_word)
                    == simple_spec(ts, q + 2, assigns_view(assignments@), words_view(words@), redirects_view(before).push(rd@), seen_word));
            } else {
                assert(self.pos == q + 1);
                assert(word_view(target@) =~= Seq::<SpecWordPart>::empty());
                assert(simple_spec(ts, q, assigns_view(assignments@), words_view(words@), redirects_view(before), seen_word)
                    == simple_spec(ts, q + 1, assigns_view(assignments@), words_view(words@), redirects_view(before).push(rd@), seen_word));
            }
        }
        if assignments.len() == 0 && words.len() == 0 && redirects.len() == 0 {
            let name = token_debug_name(self.peek());
            let m1 = concat_str("xsh: syntax error near token '", name.as_str());
            return Err(concat_str(m1.as_str(), "'"));
        }
        let sc = SimpleCommand { assignments, words, redirects };
        Ok(Node::Simple(sc))
    }
}

/// The program `c OP t` for a redirection token `OP` that takes a target.
proof fn lemma_command_with_redirect(c: SpecWord, op: SpecToken, t: SpecWord, kind: RedirectKind)
    requires
        redirect_of(op) == Some((kind, true)),
        !(plain_literal_spec(c) is Some && is_keyword(plain_literal_spec(c)->0)),
        split_assignment_spec(c) is None,
    ensures
        parse_spec(seq![SpecToken::Word(c), op, SpecToken::Word(t), SpecToken::Eof]) == Ok::<Seq<SpecNode>, Seq<char>>(
            seq![
                SpecNode::Simple(
                    SpecSimple {
                        assignments: Seq::empty(),
                        words: seq![c],
                        redirects: seq![SpecRedirect { kind, target: t }],
                    },
                ),
            ],
        ),
{
    let ts = seq![SpecToken::Word(c), op, SpecToken::Word(t), SpecToken::Eof];
    let e: Seq<(Seq<char>, SpecWord)> = Seq::empty();
    let cmd = SpecNode::Simple(
        SpecSimple { assignments: e, words: seq![c], redirects: seq![SpecRedirect { kind, target: t }] },
    );
    assert(keyword_at(ts, 0) is None);
    assert(simple_spec(ts, 3, e, seq![c], seq![SpecRedirect { kind, target: t }], true) == Ok::<(SpecNode, int), Seq<char>>((cmd, 3int)));
    assert(simple_spec(ts, 1, e, Seq::<SpecWord>::empty().push(c), Seq::empty(), true) == Ok::<(SpecNode, int), Seq<char>>((cmd, 3int)));
    assert(simple_spec(ts, 0, e, Seq::empty(), Seq::empty(), false) == Ok::<(SpecNode, int), Seq<char>>((cmd, 3int)));
    assert(simple_or_funcdef_spec(ts, 0) == Ok::<(SpecNode, int), Seq<char>>((cmd, 3int)));
    assert(command_spec(ts, 0) == Ok::<(SpecNode, int), Seq<char>>((cmd, 3int)));
    assert(pipeline_rest(ts, 3, seq![cmd], false) == Ok::<(SpecNode, int), Seq<char>>((cmd, 3int)));
    assert(pipeline_spec(ts, 0) == Ok::<(SpecNode, int), Seq<char>>((cmd, 3int)));
    assert(and_or_rest(ts, 3, cmd, Seq::empty()) == Ok::<(SpecNode, int), Seq<char>>((cmd, 3int)));
    assert(and_or_spec(ts, 0) == Ok::<(SpecNode, int), Seq<char>>((cmd, 3int)));
    assert(stmts_spec(ts, 3, Stop::Top, seq![cmd]) == Ok::<(Seq<SpecNode>, int), Seq<char>>((seq![cmd], 3int)));
    assert(Seq::<SpecNode>::empty().push(cmd) == seq![cmd]);
    assert(stmts_spec(ts, 0, Stop::Top, Seq::empty()) == Ok::<(Seq<SpecNode>, int), Seq<char>>((seq![cmd], 3int)));
}

/// A command word followed by a redirection operator and a target word
/// parses as one simple command with that one redirection: `<` reads from
/// the target, `>` truncates it, `>>` appends to it, `2>` and `2>>` do so
/// for the error stream, and `&>` sends both streams to it.
pub proof fn redirect_operators_give_their_kind(c: SpecWord, t: SpecWord)
    requires
        !(plain_literal_spec(c) is Some && is_keyword(plain_literal_spec(c)->0)),
        split_assignment_spec(c) is None,
    ensures
        ({
            let prog = |op: SpecToken| seq![SpecToken::Word(c), op, SpecToken::Word(t), SpecToken::Eof];
            let one = |kind: RedirectKind|
                Ok::<Seq<SpecNode>, Seq<char>>(
                    seq![
                        SpecNode::Simple(
                            SpecSimple {
                                assignments: Seq::empty(),
                                words: seq![c],
                                redirects: seq![SpecRedirect { kind, target: t }],
                            },
                        ),
                    ],
                );
            &&& parse_spec(prog(SpecToken::Less)) == one(RedirectKind::In)
            &&& parse_spec(prog(SpecToken::Great)) == one(RedirectKind::Out)
            &&& parse_spec(prog(SpecToken::DGreat)) == one(RedirectKind::Append)
            &&& parse_spec(prog(SpecToken::ErrGreat)) == one(RedirectKind::ErrOut)
            &&& parse_spec(prog(SpecToken::ErrDGreat)) == one(RedirectKind::ErrAppend)
            &&& parse_spec(prog(SpecToken::AndGreat)) == one(RedirectKind::Both)
        }),
{
    lemma_command_with_redirect(c, SpecToken::Less, t, RedirectKind::In);
    lemma_command_with_redirect(c, SpecToken::Great, t, RedirectKind::Out);
    lemma_command_with_redirect(c, SpecToken::DGreat, t, RedirectKind::Append);
    lemma_command_with_redirect(c, SpecToken::ErrGreat, t, RedirectKind::ErrOut);
    lemma_command_with_redirect(c, SpecToken::ErrDGreat, t, RedirectKind::ErrAppend);
    lemma_command_with_redirect(c, SpecToken::AndGreat, t, RedirectKind::Both);
}

/// The simple command made of the one word `c`.
pub open spec fn one_word_command(c: SpecWord) -> SpecNode {
    SpecNode::Simple(SpecSimple { assignments: Seq::empty(), words: seq![c], redirects: Seq::empty() })
}

/// A word that the parser reads as a command name: no reserved word and no
/// assignment.
pub open spec fn is_command_word(c: SpecWord) -> bool {
    !(plain_literal_spec(c) is Some && is_keyword(plain_literal_spec(c)->0)) && split_assignment_spec(c) is None
}

/// A command word followed by a token that ends a simple command is that
/// one-word command.
proof fn lemma_one_word(ts: Seq<SpecToken>, p: int, c: SpecWord)
    requires
        0 <= p,
        p + 1 < ts.len(),
        ts[p] == SpecToken::Word(c),
        is_command_word(c),
        !(ts[p + 1] is Word),
        !(ts[p + 1] is LParen),
        redirect_of(ts[p + 1]) is None,
    ensures
        command_spec(ts, p) == Ok::<(SpecNode, int), Seq<char>>((one_word_command(c), p + 1)),
{
    let e: Seq<(Seq<char>, SpecWord)> = Seq::empty();
    assert(keyword_at(ts, p) is None);
    assert(Seq::<SpecWord>::empty().push(c) == seq![c]);
    assert(simple_spec(ts, p + 1, e, seq![c], Seq::empty(), true) == Ok::<(SpecNode, int), Seq<char>>(
        (one_word_command(c), p + 1),
    ));
    assert(simple_spec(ts, p, e, Seq::empty(), Seq::empty(), false) == Ok::<(SpecNode, int), Seq<char>>(
        (one_word_command(c), p + 1),
    ));
    assert(simple_or_funcdef_spec(ts, p) == Ok::<(SpecNode, int), Seq<char>>((one_word_command(c), p + 1)));
}

/// The control operators combine commands: `a | b` is a pipeline of the
/// two, `a && b` and `a || b` are lists that join them with "and" and
/// "or", `a ; b` is two statements, `a &` runs `a` in the background and
/// `! a` is `a` with its status negated.
pub proof fn control_operators_compose_commands(c1: SpecWord, c2: SpecWord)
    requires
        is_command_word(c1),
        is_command_word(c2),
    ensures
        ({
            let a = one_word_command(c1);
            let b = one_word_command(c2);
            let prog = |op: SpecToken| seq![SpecToken::Word(c1), op, SpecToken::Word(c2), SpecToken::Eof];
            &&& parse_spec(prog(SpecToken::Pipe)) == Ok::<Seq<SpecNode>, Seq<char>>(
                seq![SpecNode::Pipeline(seq![a, b], false)],
            )
            &&& parse_spec(prog(SpecToken::AndIf)) == Ok::<Seq<SpecNode>, Seq<char>>(
                seq![SpecNode::List(seq![(a, Sep::And), (b, Sep::Sequential)])],
            )
            &&& parse_spec(prog(SpecToken::OrIf)) == Ok::<Seq<SpecNode>, Seq<char>>(
                seq![SpecNode::List(seq![(a, Sep::Or), (b, Sep::Sequential)])],
            )
            &&& parse_spec(prog(SpecToken::Semi)) == Ok::<Seq<SpecNode>, Seq<char>>(seq![a, b])
            &&& parse_spec(seq![SpecToken::Word(c1), SpecToken::Amp, SpecToken::Eof]) == Ok::<
                Seq<SpecNode>,
                Seq<char>,
            >(seq![SpecNode::Background(Box::new(a))])
            &&& parse_spec(seq![SpecToken::Bang, SpecToken::Word(c1), SpecToken::Eof]) == Ok::<
                Seq<SpecNode>,
                Seq<char>,
            >(seq![SpecNode::Pipeline(seq![a], true)])
        }),
{
    lemma_pipe_pair(c1, c2);
    lemma_and_or_pair(c1, c2, SpecToken::AndIf, Sep::And);
    lemma_and_or_pair(c1, c2, SpecToken::OrIf, Sep::Or);
    lemma_semi_pair(c1, c2);
    lemma_background_one(c1);
    lemma_negated_one(c1);
}

/// `a | b`: a pipeline of the two commands.
proof fn lemma_pipe_pair(c1: SpecWord, c2: SpecWord)
    requires
        is_command_word(c1),
        is_command_word(c2),
    ensures
        parse_spec(seq![SpecToken::Word(c1), SpecToken::Pipe, SpecToken::Word(c2), SpecToken::Eof]) == Ok::<
            Seq<SpecNode>,
            Seq<char>,
        >(seq![SpecNode::Pipeline(seq![one_word_command(c1), one_word_command(c2)], false)]),
{
    let a = one_word_command(c1);
    let b = one_word_command(c2);
    let none: Seq<SpecNode> = Seq::empty();
    let pl = SpecNode::Pipeline(seq![a, b], false);
    let t = seq![SpecToken::Word(c1), SpecToken::Pipe, SpecToken::Word(c2), SpecToken::Eof];
    lemma_one_word(t, 0, c1);
    lemma_one_word(t, 2, c2);
    assert(skip_nl(t, 2) == 2);
    assert(seq![a].push(b) == seq![a, b]);
    assert(pipeline_rest(t, 3, seq![a, b], false) == Ok::<(SpecNode, int), Seq<char>>((pl, 3int)));
    assert(pipeline_rest(t, 1, seq![a], false) == Ok::<(SpecNode, int), Seq<char>>((pl, 3int)));
    assert(pipeline_spec(t, 0) == Ok::<(SpecNode, int), Seq<char>>((pl, 3int)));
    assert(and_or_spec(t, 0) == Ok::<(SpecNode, int), Seq<char>>((pl, 3int)));
    assert(none.push(pl) == seq![pl]);
    assert(stmts_spec(t, 3, Stop::Top, seq![pl]) == Ok::<(Seq<SpecNode>, int), Seq<char>>((seq![pl], 3int)));
    assert(keyword_at(t, 0) is None);
    assert(stmts_spec(t, 0, Stop::Top, none) == Ok::<(Seq<SpecNode>, int), Seq<char>>((seq![pl], 3int)));
}

/// `a ; b`: two statements.
proof fn lemma_semi_pair(c1: SpecWord, c2: SpecWord)
    requires
        is_command_word(c1),
        is_command_word(c2),
    ensures
        parse_spec(seq![SpecToken::Word(c1), SpecToken::Semi, SpecToken::Word(c2), SpecToken::Eof]) == Ok::<
            Seq<SpecNode>,
            Seq<char>,
        >(seq![one_word_command(c1), one_word_command(c2)]),
{
    let a = one_word_command(c1);
    let b = one_word_command(c2);
    let none: Seq<SpecNode> = Seq::empty();
    let u = seq![SpecToken::Word(c1), SpecToken::Semi, SpecToken::Word(c2), SpecToken::Eof];
    lemma_one_word(u, 0, c1);
    lemma_one_word(u, 2, c2);
    assert(pipeline_spec(u, 0) == Ok::<(SpecNode, int), Seq<char>>((a, 1int)));
    assert(pipeline_spec(u, 2) == Ok::<(SpecNode, int), Seq<char>>((b, 3int)));
    assert(and_or_spec(u, 0) == Ok::<(SpecNode, int), Seq<char>>((a, 1int)));
    assert(and_or_spec(u, 2) == Ok::<(SpecNode, int), Seq<char>>((b, 3int)));
    assert(none.push(a).push(b) == seq![a, b]);
    assert(stmts_spec(u, 3, Stop::Top, seq![a, b]) == Ok::<(Seq<SpecNode>, int), Seq<char>>((seq![a, b], 3int)));
    assert(keyword_at(u, 2) is None);
    assert(stmts_spec(u, 2, Stop::Top, none.push(a)) == Ok::<(Seq<SpecNode>, int), Seq<char>>((seq![a, b], 3int)));
    assert(keyword_at(u, 0) is None);
    assert(stmts_spec(u, 0, Stop::Top, none) == Ok::<(Seq<SpecNode>, int), Seq<char>>((seq![a, b], 3int)));
}

/// `a &`: the command in the background.
proof fn lemma_background_one(c1: SpecWord)
    requires
        is_command_word(c1),
    ensures
        parse_spec(seq![SpecToken::Word(c1), SpecToken::Amp, SpecToken::Eof]) == Ok::<Seq<SpecNode>, Seq<char>>(
            seq![SpecNode::Background(Box::new(one_word_command(c1)))],
        ),
{
    let a = one_word_command(c1);
    let none: Seq<SpecNode> = Seq::empty();
    let v = seq![SpecToken::Word(c1), SpecToken::Amp, SpecToken::Eof];
    lemma_one_word(v, 0, c1);
    assert(pipeline_spec(v, 0) == Ok::<(SpecNode, int), Seq<char>>((a, 1int)));
    assert(and_or_spec(v, 0) == Ok::<(SpecNode, int), Seq<char>>((a, 1int)));
    let bg = SpecNode::Background(Box::new(a));
    assert(none.push(bg) == seq![bg]);
    assert(stmts_spec(v, 2, Stop::Top, seq![bg]) == Ok::<(Seq<SpecNode>, int), Seq<char>>((seq![bg], 2int)));
    assert(keyword_at(v, 0) is None);
    assert(stmts_spec(v, 0, Stop::Top, none) == Ok::<(Seq<SpecNode>, int), Seq<char>>((seq![bg], 2int)));
}

/// `! a`: a pipeline of the one command, negated.
proof fn lemma_negated_one(c1: SpecWord)
    requires
        is_command_word(c1),
    ensures
        parse_spec(seq![SpecToken::Bang, SpecToken::Word(c1), SpecToken::Eof]) == Ok::<Seq<SpecNode>, Seq<char>>(
            seq![SpecNode::Pipeline(seq![one_word_command(c1)], true)],
        ),
{
    let a = one_word_command(c1);
    let none: Seq<SpecNode> = Seq::empty();
    let w = seq![SpecToken::Bang, SpecToken::Word(c1), SpecToken::Eof];
    lemma_one_word(w, 1, c1);
    let neg = SpecNode::Pipeline(seq![a], true);
    assert(pipeline_rest(w, 2, seq![a], true) == Ok::<(SpecNode, int), Seq<char>>((neg, 2int)));
    assert(pipeline_spec(w, 0) == Ok::<(SpecNode, int), Seq<char>>((neg, 2int)));
    assert(and_or_spec(w, 0) == Ok::<(SpecNode, int), Seq<char>>((neg, 2int)));
    assert(keyword_at(w, 0) is None);
    assert(none.push(neg) == seq![neg]);
    assert(stmts_spec(w, 2, Stop::Top, seq![neg]) == Ok::<(Seq<SpecNode>, int), Seq<char>>((seq![neg], 2int)));
    assert(stmts_spec(w, 0, Stop::Top, none) == Ok::<(Seq<SpecNode>, int), Seq<char>>((seq![neg], 2int)));
}

/// `a && b` or `a || b`: a list of the two commands.
proof fn lemma_and_or_pair(c1: SpecWord, c2: SpecWord, op: SpecToken, sep: Sep)
    requires
        is_command_word(c1),
        is_command_word(c2),
        (op is AndIf && sep == Sep::And) || (op is OrIf && sep == Sep::Or),
    ensures
        parse_spec(seq![SpecToken::Word(c1), op, SpecToken::Word(c2), SpecToken::Eof]) == Ok::<Seq<SpecNode>, Seq<char>>(
            seq![SpecNode::List(seq![(one_word_command(c1), sep), (one_word_command(c2), Sep::Sequential)])],
        ),
{
    let a = one_word_command(c1);
    let b = one_word_command(c2);
    let t = seq![SpecToken::Word(c1), op, SpecToken::Word(c2), SpecToken::Eof];
    let none: Seq<SpecNode> = Seq::empty();
    let items: Seq<(SpecNode, Sep)> = Seq::empty();
    let l = SpecNode::List(seq![(a, sep), (b, Sep::Sequential)]);
    lemma_one_word(t, 0, c1);
    lemma_one_word(t, 2, c2);
    assert(pipeline_spec(t, 0) == Ok::<(SpecNode, int), Seq<char>>((a, 1int)));
    assert(pipeline_spec(t, 2) == Ok::<(SpecNode, int), Seq<char>>((b, 3int)));
    assert(skip_nl(t, 2) == 2);
    assert(items.push((a, sep)).push((b, Sep::Sequential)) == seq![(a, sep), (b, Sep::Sequential)]);
    assert(and_or_rest(t, 3, b, items.push((a, sep))) == Ok::<(SpecNode, int), Seq<char>>((l, 3int)));
    assert(and_or_rest(t, 1, a, items) == Ok::<(SpecNode, int), Seq<char>>((l, 3int)));
    assert(and_or_spec(t, 0) == Ok::<(SpecNode, int), Seq<char>>((l, 3int)));
    assert(none.push(l) == seq![l]);
    assert(stmts_spec(t, 3, Stop::Top, seq![l]) == Ok::<(Seq<SpecNode>, int), Seq<char>>((seq![l], 3int)));
    assert(keyword_at(t, 0) is None);
    assert(stmts_spec(t, 0, Stop::Top, none) == Ok::<(Seq<SpecNode>, int), Seq<char>>((seq![l], 3int)));
}

/// The token of a reserved word.
pub open spec fn kw(k: Seq<char>) -> SpecToken {
    SpecToken::Word(seq![SpecWordPart::Literal(k)])
}

/// The reserved words, told apart where the parser compares them.
proof fn lemma_keywords_distinct()
    ensures
        "fi"@ != "elif"@ && "fi"@ != "else"@,
        "while"@ != "if"@ && "while"@ != "for"@,
        "until"@ != "if"@ && "until"@ != "for"@ && "until"@ != "while"@,
        "for"@ != "if"@,
        "else"@ != "elif"@,
        "fi"@ != "then"@ && "done"@ != "do"@,
{
    reveal_strlit("fi");
    reveal_strlit("elif");
    reveal_strlit("else");
    reveal_strlit("while");
    reveal_strlit("if");
    reveal_strlit("for");
    reveal_strlit("until");
    reveal_strlit("then");
    reveal_strlit("done");
    reveal_strlit("do");
    assert("fi"@.len() == 2 && "elif"@.len() == 4 && "else"@.len() == 4 && "for"@.len() == 3 && "if"@.len() == 2);
    assert("then"@.len() == 4 && "done"@.len() == 4 && "do"@.len() == 2);
    assert("while"@[0] != "until"@[0]);
    assert("else"@[2] != "elif"@[2]);
}

/// A statement list `c ;` that ends at the reserved word at `p + 2`.
proof fn lemma_one_statement_before(ts: Seq<SpecToken>, p: int, c: SpecWord, stop: Stop, k: Seq<char>)
    requires
        0 <= p,
        p + 3 < ts.len(),
        ts[p] == SpecToken::Word(c),
        is_command_word(c),
        ts[p + 1] == SpecToken::Semi,
        ts[p + 2] == kw(k),
        is_keyword(k),
        stops_at(stop, k),
    ensures
        stmts_spec(ts, p, stop, Seq::empty()) == Ok::<(Seq<SpecNode>, int), Seq<char>>(
            (seq![one_word_command(c)], p + 2),
        ),
{
    let a = one_word_command(c);
    let none: Seq<SpecNode> = Seq::empty();
    lemma_one_word(ts, p, c);
    assert(pipeline_spec(ts, p) == Ok::<(SpecNode, int), Seq<char>>((a, p + 1)));
    assert(and_or_spec(ts, p) == Ok::<(SpecNode, int), Seq<char>>((a, p + 1)));
    assert(keyword_at(ts, p) is None);
    assert(keyword_at(ts, p + 2) == Some(k));
    assert(none.push(a) == seq![a]);
    assert(stmts_spec(ts, p + 2, stop, seq![a]) == Ok::<(Seq<SpecNode>, int), Seq<char>>((seq![a], p + 2)));
}

/// `if c1; then c2; fi` is an `if` with one branch and no `else`, and
/// `if c1; then c2; else c3; fi` one with that `else`.
pub proof fn if_statement_structure(c1: SpecWord, c2: SpecWord, c3: SpecWord)
    requires
        is_command_word(c1),
        is_command_word(c2),
        is_command_word(c3),
    ensures
        ({
            let a = one_word_command(c1);
            let b = one_word_command(c2);
            let c = one_word_command(c3);
            let semi = SpecToken::Semi;
            let w1 = SpecToken::Word(c1);
            let w2 = SpecToken::Word(c2);
            let w3 = SpecToken::Word(c3);
            &&& parse_spec(seq![kw("if"@), w1, semi, kw("then"@), w2, semi, kw("fi"@), SpecToken::Eof]) == Ok::<
                Seq<SpecNode>,
                Seq<char>,
            >(seq![SpecNode::If { branches: seq![(seq![a], seq![b])], else_branch: None }])
            &&& parse_spec(
                seq![kw("if"@), w1, semi, kw("then"@), w2, semi, kw("else"@), w3, semi, kw("fi"@), SpecToken::Eof],
            ) == Ok::<Seq<SpecNode>, Seq<char>>(
                seq![SpecNode::If { branches: seq![(seq![a], seq![b])], else_branch: Some(seq![c]) }],
            )
        }),
{
    lemma_if_then_fi(c1, c2);
    lemma_if_then_else_fi(c1, c2, c3);
}

proof fn lemma_if_then_fi(c1: SpecWord, c2: SpecWord)
    requires
        is_command_word(c1),
        is_command_word(c2),
    ensures
        parse_spec(
            seq![kw("if"@), SpecToken::Word(c1), SpecToken::Semi, kw("then"@), SpecToken::Word(c2), SpecToken::Semi, kw("fi"@), SpecToken::Eof],
        ) == Ok::<Seq<SpecNode>, Seq<char>>(
            seq![
                SpecNode::If {
                    branches: seq![(seq![one_word_command(c1)], seq![one_word_command(c2)])],
                    else_branch: None,
                },
            ],
        ),
{
    lemma_keywords_distinct();
    let ts = seq![kw("if"@), SpecToken::Word(c1), SpecToken::Semi, kw("then"@), SpecToken::Word(c2), SpecToken::Semi, kw("fi"@), SpecToken::Eof];
    let a = one_word_command(c1);
    let b = one_word_command(c2);
    let br = seq![(seq![a], seq![b])];
    let node = SpecNode::If { branches: br, else_branch: None };
    let none: Seq<SpecNode> = Seq::empty();
    lemma_one_statement_before(ts, 1, c1, Stop::Then, "then"@);
    lemma_one_statement_before(ts, 4, c2, Stop::ElseFi, "fi"@);
    assert(keyword_at(ts, 6) == Some("fi"@));
    assert(if_rest(ts, 6, br) == Ok::<(SpecNode, int), Seq<char>>((node, 7int)));
    assert(keyword_at(ts, 3) == Some("then"@));
    assert(if_spec(ts, 0) == Ok::<(SpecNode, int), Seq<char>>((node, 7int)));
    assert(keyword_at(ts, 0) == Some("if"@));
    assert(command_spec(ts, 0) == Ok::<(SpecNode, int), Seq<char>>((node, 7int)));
    assert(pipeline_spec(ts, 0) == Ok::<(SpecNode, int), Seq<char>>((node, 7int)));
    assert(and_or_spec(ts, 0) == Ok::<(SpecNode, int), Seq<char>>((node, 7int)));
    assert(none.push(node) == seq![node]);
    assert(stmts_spec(ts, 7, Stop::Top, seq![node]) == Ok::<(Seq<SpecNode>, int), Seq<char>>((seq![node], 7int)));
    assert(stmts_spec(ts, 0, Stop::Top, none) == Ok::<(Seq<SpecNode>, int), Seq<char>>((seq![node], 7int)));
}

proof fn lemma_if_then_else_fi(c1: SpecWord, c2: SpecWord, c3: SpecWord)
    requires
        is_command_word(c1),
        is_command_word(c2),
        is_command_word(c3),
    ensures
        parse_spec(
            seq![
                kw("if"@),
                SpecToken::Word(c1),
                SpecToken::Semi,
                kw("then"@),
                SpecToken::Word(c2),
                SpecToken::Semi,
                kw("else"@),
                SpecToken::Word(c3),
                SpecToken::Semi,
                kw("fi"@),
                SpecToken::Eof,
            ],
        ) == Ok::<Seq<SpecNode>, Seq<char>>(
            seq![
                SpecNode::If {
                    branches: seq![(seq![one_word_command(c1)], seq![one_word_command(c2)])],
                    else_branch: Some(seq![one_word_command(c3)]),
                },
            ],
        ),
{
    lemma_keywords_distinct();
    let ts = seq![
        kw("if"@),
        SpecToken::Word(c1),
        SpecToken::Semi,
        kw("then"@),
        SpecToken::Word(c2),
        SpecToken::Semi,
        kw("else"@),
        SpecToken::Word(c3),
        SpecToken::Semi,
        kw("fi"@),
        SpecToken::Eof,
    ];
    let a = one_word_command(c1);
    let b = one_word_command(c2);
    let c = one_word_command(c3);
    let br = seq![(seq![a], seq![b])];
    let node = SpecNode::If { branches: br, else_branch: Some(seq![c]) };
    let none: Seq<SpecNode> = Seq::empty();
    lemma_one_statement_before(ts, 1, c1, Stop::Then, "then"@);
    lemma_one_statement_before(ts, 4, c2, Stop::ElseFi, "else"@);
    lemma_one_statement_before(ts, 7, c3, Stop::Fi, "fi"@);
    assert(keyword_at(ts, 6) == Some("else"@));
    assert(keyword_at(ts, 9) == Some("fi"@));
    assert(if_rest(ts, 6, br) == Ok::<(SpecNode, int), Seq<char>>((node, 10int)));
    assert(keyword_at(ts, 3) == Some("then"@));
    assert(if_spec(ts, 0) == Ok::<(SpecNode, int), Seq<char>>((node, 10int)));
    assert(keyword_at(ts, 0) == Some("if"@));
    assert(command_spec(ts, 0) == Ok::<(SpecNode, int), Seq<char>>((node, 10int)));
    assert(pipeline_spec(ts, 0) == Ok::<(SpecNode, int), Seq<char>>((node, 10int)));
    assert(and_or_spec(ts, 0) == Ok::<(SpecNode, int), Seq<char>>((node, 10int)));
    assert(none.push(node) == seq![node]);
    assert(stmts_spec(ts, 10, Stop::Top, seq![node]) == Ok::<(Seq<SpecNode>, int), Seq<char>>((seq![node], 10int)));
    assert(stmts_spec(ts, 0, Stop::Top, none) == Ok::<(Seq<SpecNode>, int), Seq<char>>((seq![node], 10int)));
}

/// `while c1; do c2; done` is a loop that runs `c2` while `c1` succeeds,
/// and `until c1; do c2; done` one that runs it until `c1` succeeds.
pub proof fn loop_statement_structure(c1: SpecWord, c2: SpecWord)
    requires
        is_command_word(c1),
        is_command_word(c2),
    ensures
        ({
            let a = one_word_command(c1);
            let b = one_word_command(c2);
            let semi = SpecToken::Semi;
            let w1 = SpecToken::Word(c1);
            let w2 = SpecToken::Word(c2);
            &&& parse_spec(seq![kw("while"@), w1, semi, kw("do"@), w2, semi, kw("done"@), SpecToken::Eof]) == Ok::<
                Seq<SpecNode>,
                Seq<char>,
            >(seq![SpecNode::While { cond: seq![a], body: seq![b], until: false }])
            &&& parse_spec(seq![kw("until"@), w1, semi, kw("do"@), w2, semi, kw("done"@), SpecToken::Eof]) == Ok::<
                Seq<SpecNode>,
                Seq<char>,
            >(seq![SpecNode::While { cond: seq![a], body: seq![b], until: true }])
        }),
{
    lemma_while_loop(c1, c2, "while"@, false);
    lemma_while_loop(c1, c2, "until"@, true);
}

proof fn lemma_while_loop(c1: SpecWord, c2: SpecWord, k: Seq<char>, until: bool)
    requires
        is_command_word(c1),
        is_command_word(c2),
        (k == "while"@ && !until) || (k == "until"@ && until),
    ensures
        parse_spec(
            seq![kw(k), SpecToken::Word(c1), SpecToken::Semi, kw("do"@), SpecToken::Word(c2), SpecToken::Semi, kw("done"@), SpecToken::Eof],
        ) == Ok::<Seq<SpecNode>, Seq<char>>(
            seq![SpecNode::While { cond: seq![one_word_command(c1)], body: seq![one_word_command(c2)], until }],
        ),
{
    lemma_keywords_distinct();
    let ts = seq![kw(k), SpecToken::Word(c1), SpecToken::Semi, kw("do"@), SpecToken::Word(c2), SpecToken::Semi, kw("done"@), SpecToken::Eof];
    let a = one_word_command(c1);
    let b = one_word_command(c2);
    let node = SpecNode::While { cond: seq![a], body: seq![b], until };
    let none: Seq<SpecNode> = Seq::empty();
    lemma_one_statement_before(ts, 1, c1, Stop::Do, "do"@);
    lemma_one_statement_before(ts, 4, c2, Stop::Done, "done"@);
    assert(keyword_at(ts, 3) == Some("do"@));
    assert(keyword_at(ts, 6) == Some("done"@));
    assert(do_done_spec(ts, 3) == Ok::<(Seq<SpecNode>, int), Seq<char>>((seq![b], 7int)));
    assert(while_spec(ts, 0, until) == Ok::<(SpecNode, int), Seq<char>>((node, 7int)));
    assert(keyword_at(ts, 0) == Some(k));
    assert(command_spec(ts, 0) == Ok::<(SpecNode, int), Seq<char>>((node, 7int)));
    assert(pipeline_spec(ts, 0) == Ok::<(SpecNode, int), Seq<char>>((node, 7int)));
    assert(and_or_spec(ts, 0) == Ok::<(SpecNode, int), Seq<char>>((node, 7int)));
    assert(none.push(node) == seq![node]);
    assert(stmts_spec(ts, 7, Stop::Top, seq![node]) == Ok::<(Seq<SpecNode>, int), Seq<char>>((seq![node], 7int)));
    assert(stmts_spec(ts, 0, Stop::Top, none) == Ok::<(Seq<SpecNode>, int), Seq<char>>((seq![node], 7int)));
}

/// The `for` loop of `for_statement_structure`, read from its first token.
#[verifier::rlimit(40)]
proof fn lemma_for_header(x: Seq<char>, w1: SpecWord, w2: SpecWord, c: SpecWord)
    requires
        is_valid_ident_spec(x),
        is_command_word(c),
    ensures
        for_spec(
            seq![
                kw("for"@),
                kw(x),
                kw("in"@),
                SpecToken::Word(w1),
                SpecToken::Word(w2),
                SpecToken::Semi,
                kw("do"@),
                SpecToken::Word(c),
                SpecToken::Semi,
                kw("done"@),
                SpecToken::Eof,
            ],
            0,
        ) == Ok::<(SpecNode, int), Seq<char>>(
            (SpecNode::For { var: x, words: seq![w1, w2], body: seq![one_word_command(c)] }, 10int),
        ),
{
    lemma_keywords_distinct();
    reveal_strlit("in");
    let ts = seq![
        kw("for"@),
        kw(x),
        kw("in"@),
        SpecToken::Word(w1),
        SpecToken::Word(w2),
        SpecToken::Semi,
        kw("do"@),
        SpecToken::Word(c),
        SpecToken::Semi,
        kw("done"@),
        SpecToken::Eof,
    ];
    let b = one_word_command(c);
    let node = SpecNode::For { var: x, words: seq![w1, w2], body: seq![b] };
    let nw: Seq<SpecWord> = Seq::empty();
    lemma_one_statement_before(ts, 7, c, Stop::Done, "done"@);
    assert(keyword_at(ts, 6) == Some("do"@));
    assert(keyword_at(ts, 9) == Some("done"@));
    assert(do_done_spec(ts, 6) == Ok::<(Seq<SpecNode>, int), Seq<char>>((seq![b], 10int)));
    assert(plain_ident_spec(seq![SpecWordPart::Literal(x)]) == Some(x));
    assert(keyword_at(ts, 2) == Some("in"@));
    assert(skip_nl(ts, 2) == 2);
    assert(ts[3] == SpecToken::Word(w1) && ts[4] == SpecToken::Word(w2) && ts[5] == SpecToken::Semi);
    assert(for_words(ts, 5, nw.push(w1).push(w2)) == (nw.push(w1).push(w2), 5int));
    assert(for_words(ts, 4, nw.push(w1)) == (nw.push(w1).push(w2), 5int));
    assert(for_words(ts, 3, nw) == (nw.push(w1).push(w2), 5int));
    assert(nw.push(w1).push(w2) == seq![w1, w2]);
    assert(skip_nl(ts, 6) == 6);
    assert(for_spec(ts, 0) == Ok::<(SpecNode, int), Seq<char>>((node, 10int)));
}

/// `for x in w1 w2; do c; done` is a loop over the two words with the
/// variable `x` and the body `c`.
pub proof fn for_statement_structure(x: Seq<char>, w1: SpecWord, w2: SpecWord, c: SpecWord)
    requires
        is_valid_ident_spec(x),
        is_command_word(c),
    ensures
        parse_spec(
            seq![
                kw("for"@),
                kw(x),
                kw("in"@),
                SpecToken::Word(w1),
                SpecToken::Word(w2),
                SpecToken::Semi,
                kw("do"@),
                SpecToken::Word(c),
                SpecToken::Semi,
                kw("done"@),
                SpecToken::Eof,
            ],
        ) == Ok::<Seq<SpecNode>, Seq<char>>(
            seq![SpecNode::For { var: x, words: seq![w1, w2], body: seq![one_word_command(c)] }],
        ),
{
    let ts = seq![
        kw("for"@),
        kw(x),
        kw("in"@),
        SpecToken::Word(w1),
        SpecToken::Word(w2),
        SpecToken::Semi,
        kw("do"@),
        SpecToken::Word(c),
        SpecToken::Semi,
        kw("done"@),
        SpecToken::Eof,
    ];
    let node = SpecNode::For { var: x, words: seq![w1, w2], body: seq![one_word_command(c)] };
    let none: Seq<SpecNode> = Seq::empty();
    lemma_keywords_distinct();
    lemma_for_header(x, w1, w2, c);
    assert(keyword_at(ts, 0) == Some("for"@));
    assert(command_spec(ts, 0) == Ok::<(SpecNode, int), Seq<char>>((node, 10int)));
    assert(pipeline_spec(ts, 0) == Ok::<(SpecNode, int), Seq<char>>((node, 10int)));
    assert(and_or_spec(ts, 0) == Ok::<(SpecNode, int), Seq<char>>((node, 10int)));
    assert(none.push(node) == seq![node]);
    assert(stmts_spec(ts, 10, Stop::Top, seq![node]) == Ok::<(Seq<SpecNode>, int), Seq<char>>((seq![node], 10int)));
    assert(stmts_spec(ts, 0, Stop::Top, none) == Ok::<(Seq<SpecNode>, int), Seq<char>>((seq![node], 10int)));
}

} // verus!
