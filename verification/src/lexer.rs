//! The lexer: from source text to tokens.

use vstd::prelude::*;
use crate::ast::{SpecWord, SpecWordPart, Word, WordPart, word_view};
use crate::text::{chars_of, is_alphabetic, is_alphanumeric, is_digit, is_name_char, is_name_start, string_from_chars};

verus! {

broadcast use vstd::string::group_string_axioms;

#[derive(Debug, Clone, PartialEq)]
pub enum Token {
    Word(Word),
    /// `|`
    Pipe,
    /// `&&`
    AndIf,
    /// `||`
    OrIf,
    /// `;`
    Semi,
    /// `;;`
    DSemi,
    /// `&`
    Amp,
    Newline,
    /// `{`
    LBrace,
    /// `}`
    RBrace,
    /// `(`
    LParen,
    /// `)`
    RParen,
    /// `!`
    Bang,
    /// `<`
    Less,
    /// `>`
    Great,
    /// `>>`
    DGreat,
    /// `2>`
    ErrGreat,
    /// `2>>`
    ErrDGreat,
    /// `&>` or `>&`
    AndGreat,
    /// `2>&1`
    DupErrToOut,
    /// `1>&2`
    DupOutToErr,
    Eof,
}

/// Model of a token.
pub enum SpecToken {
    Word(SpecWord),
    Pipe,
    AndIf,
    OrIf,
    Semi,
    DSemi,
    Amp,
    Newline,
    LBrace,
    RBrace,
    LParen,
    RParen,
    Bang,
    Less,
    Great,
    DGreat,
    ErrGreat,
    ErrDGreat,
    AndGreat,
    DupErrToOut,
    DupOutToErr,
    Eof,
}

impl View for Token {
    type V = SpecToken;

    open spec fn view(&self) -> SpecToken {
        match self {
            Token::Word(w) => SpecToken::Word(word_view(w@)),
            Token::Pipe => SpecToken::Pipe,
            Token::AndIf => SpecToken::AndIf,
            Token::OrIf => SpecToken::OrIf,
            Token::Semi => SpecToken::Semi,
            Token::DSemi => SpecToken::DSemi,
            Token::Amp => SpecToken::Amp,
            Token::Newline => SpecToken::Newline,
            Token::LBrace => SpecToken::LBrace,
            Token::RBrace => SpecToken::RBrace,
            Token::LParen => SpecToken::LParen,
            Token::RParen => SpecToken::RParen,
            Token::Bang => SpecToken::Bang,
            Token::Less => SpecToken::Less,
            Token::Great => SpecToken::Great,
            Token::DGreat => SpecToken::DGreat,
            Token::ErrGreat => SpecToken::ErrGreat,
            Token::ErrDGreat => SpecToken::ErrDGreat,
            Token::AndGreat => SpecToken::AndGreat,
            Token::DupErrToOut => SpecToken::DupErrToOut,
            Token::DupOutToErr => SpecToken::DupOutToErr,
            Token::Eof => SpecToken::Eof,
        }
    }
}

/// Model of a sequence of tokens.
pub open spec fn tokens_view(ts: Seq<Token>) -> Seq<SpecToken> {
    ts.map_values(|t: Token| t@)
}

// ----- the lexical grammar -----

/// Characters that end an unquoted word.
pub open spec fn is_word_boundary_spec(c: char) -> bool {
    c == ' ' || c == '\t' || c == '\n' || c == '|' || c == '&' || c == ';' || c == '<' || c == '>'
        || c == '(' || c == ')' || c == '{' || c == '}'
}

/// The characters that `$` names on its own: `$?`, `$$`, `$#`, `$!`, `$@`, `$*`.
pub open spec fn is_special_param(c: char) -> bool {
    c == '?' || c == '$' || c == '#' || c == '!' || c == '@' || c == '*'
}

/// The first index at or after `i` that does not hold a space or a tab.
pub open spec fn skip_blanks(s: Seq<char>, i: int) -> int
    decreases s.len() - i,
{
    if 0 <= i < s.len() && (s[i] == ' ' || s[i] == '\t') {
        skip_blanks(s, i + 1)
    } else {
        i
    }
}

/// The first index at or after `i` that holds a line feed, or the end.
pub open spec fn line_end(s: Seq<char>, i: int) -> int
    decreases s.len() - i,
{
    if 0 <= i < s.len() && s[i] != '\n' {
        line_end(s, i + 1)
    } else {
        i
    }
}

/// Where the next token starts: after blanks and an optional `#` comment.
pub open spec fn skip_space_comment(s: Seq<char>, i: int) -> int {
    let j = skip_blanks(s, i);
    if 0 <= j < s.len() && s[j] == '#' {
        line_end(s, j)
    } else {
        j
    }
}

/// The first index at or after `i` that holds `stop`, or the end.
pub open spec fn find_char(s: Seq<char>, i: int, stop: char) -> int
    decreases s.len() - i,
{
    if 0 <= i < s.len() && s[i] != stop {
        find_char(s, i + 1, stop)
    } else {
        i
    }
}

/// The end of a run of name characters starting at `i`.
pub open spec fn name_end(s: Seq<char>, i: int) -> int
    decreases s.len() - i,
{
    if 0 <= i < s.len() && is_name_char(s[i]) {
        name_end(s, i + 1)
    } else {
        i
    }
}

/// The end of a run of ASCII digits starting at `i`.
pub open spec fn digits_end(s: Seq<char>, i: int) -> int
    decreases s.len() - i,
{
    if 0 <= i < s.len() && is_digit(s[i]) {
        digits_end(s, i + 1)
    } else {
        i
    }
}

/// The body of `$((..))` from index `i` on, where `depth` parentheses are
/// open: the text up to the closing `))`, and the index after it.
pub open spec fn arith_scan(s: Seq<char>, i: int, depth: nat, src: Seq<char>) -> Result<(Seq<char>, int), Seq<char>>
    decreases s.len() - i,
{
    if i < 0 || i >= s.len() {
        Err("unterminated arithmetic expansion"@)
    } else if s[i] == '(' {
        arith_scan(s, i + 1, depth + 1, src.push('('))
    } else if s[i] == ')' {
        if depth == 0 {
            if i + 1 < s.len() && s[i + 1] == ')' {
                Ok((src, i + 2))
            } else {
                arith_scan(s, i + 1, depth, src.push(')'))
            }
        } else {
            arith_scan(s, i + 1, (depth - 1) as nat, src.push(')'))
        }
    } else {
        arith_scan(s, i + 1, depth, src.push(s[i]))
    }
}

/// The body of `$(..)` from index `i` on, where `depth` parentheses are
/// open: the text up to the matching `)`, and the index after it.
pub open spec fn cmdsub_scan(s: Seq<char>, i: int, depth: nat, src: Seq<char>) -> Result<(Seq<char>, int), Seq<char>>
    decreases s.len() - i,
{
    if i < 0 || i >= s.len() {
        Err("unterminated command substitution"@)
    } else if s[i] == '(' {
        cmdsub_scan(s, i + 1, depth + 1, src.push('('))
    } else if s[i] == ')' {
        if depth <= 1 {
            Ok((src, i + 1))
        } else {
            cmdsub_scan(s, i + 1, (depth - 1) as nat, src.push(')'))
        }
    } else {
        cmdsub_scan(s, i + 1, depth, src.push(s[i]))
    }
}

/// What follows a `$` at index `i`: the word part and the index after it.
pub open spec fn dollar_spec(s: Seq<char>, i: int) -> Result<(SpecWordPart, int), Seq<char>> {
    let k = i + 1;
    if 0 <= k < s.len() && s[k] == '(' {
        if k + 1 < s.len() && s[k + 1] == '(' {
            match arith_scan(s, k + 2, 0, Seq::empty()) {
                Ok((src, j)) => Ok((SpecWordPart::Arith(src), j)),
                Err(e) => Err(e),
            }
        } else {
            match cmdsub_scan(s, k + 1, 1, Seq::empty()) {
                Ok((src, j)) => Ok((SpecWordPart::CmdSub(src), j)),
                Err(e) => Err(e),
            }
        }
    } else if 0 <= k < s.len() && s[k] == '{' {
        let e = find_char(s, k + 1, '}');
        Ok((SpecWordPart::Var(s.subrange(k + 1, e)), if e < s.len() { e + 1 } else { e }))
    } else if 0 <= k < s.len() && (is_special_param(s[k]) || is_digit(s[k])) {
        Ok((SpecWordPart::Var(seq![s[k]]), k + 1))
    } else if 0 <= k < s.len() && is_name_start(s[k]) {
        let e = name_end(s, k);
        Ok((SpecWordPart::Var(s.subrange(k, e)), e))
    } else {
        Ok((SpecWordPart::Literal("$"@), k))
    }
}

/// The parts so far, with the pending literal text appended when there is any.
pub open spec fn flush(parts: SpecWord, lit: Seq<char>) -> SpecWord {
    if lit.len() > 0 {
        parts.push(SpecWordPart::Literal(lit))
    } else {
        parts
    }
}

/// The text of a double-quoted string from index `i` (after the opening
/// quote) to the closing quote: the parts and pending literal, and the index
/// after the quote.
pub open spec fn dquote_spec(s: Seq<char>, i: int, parts: SpecWord, lit: Seq<char>) -> Result<(SpecWord, Seq<char>, int), Seq<char>>
    decreases s.len() - i,
{
    if i < 0 || i >= s.len() {
        Err("unterminated double-quoted string"@)
    } else if s[i] == '"' {
        Ok((parts, lit, i + 1))
    } else if s[i] == '\\' {
        if i + 1 >= s.len() {
            Err("unterminated double-quoted string"@)
        } else if s[i + 1] == '"' || s[i + 1] == '\\' || s[i + 1] == '$' {
            dquote_spec(s, i + 2, parts, lit.push(s[i + 1]))
        } else if s[i + 1] == '\n' {
            dquote_spec(s, i + 2, parts, lit)
        } else {
            dquote_spec(s, i + 2, parts, lit.push('\\').push(s[i + 1]))
        }
    } else if s[i] == '$' {
        match dollar_spec(s, i) {
            Err(e) => Err(e),
            // a `$` always moves past itself
            Ok((p, j)) => if i < j <= s.len() {
                dquote_spec(s, j, flush(parts, lit).push(p), Seq::empty())
            } else {
                Err(Seq::empty())
            },
        }
    } else {
        dquote_spec(s, i + 1, parts, lit.push(s[i]))
    }
}

/// A finished word: the parts with the pending literal; an empty literal
/// when there is nothing at all.
pub open spec fn finish_word(parts: SpecWord, lit: Seq<char>) -> SpecWord {
    let p = flush(parts, lit);
    if p.len() == 0 {
        seq![SpecWordPart::Literal(Seq::empty())]
    } else {
        p
    }
}

/// The rest of a word from index `i`, given the parts and literal text read
/// so far: the word and the index after it.
pub open spec fn word_spec(s: Seq<char>, i: int, parts: SpecWord, lit: Seq<char>) -> Result<(SpecWord, int), Seq<char>>
    decreases s.len() - i,
{
    if i < 0 || i >= s.len() || is_word_boundary_spec(s[i]) {
        Ok((finish_word(parts, lit), i))
    } else if s[i] == '\'' {
        let e = find_char(s, i + 1, '\'');
        let j = if e < s.len() { e + 1 } else { e };
        // the quote and what it encloses
        if i < j <= s.len() && i + 1 <= e <= s.len() {
            word_spec(s, j, parts, lit + s.subrange(i + 1, e))
        } else {
            Err(Seq::empty())
        }
    } else if s[i] == '"' {
        match dquote_spec(s, i + 1, parts, lit) {
            Err(e) => Err(e),
            // a quoted string always moves past its quotes
            Ok((p, l, j)) => if i < j <= s.len() {
                word_spec(s, j, p, l)
            } else {
                Err(Seq::empty())
            },
        }
    } else if s[i] == '\\' {
        if i + 1 < s.len() {
            word_spec(s, i + 2, parts, lit.push(s[i + 1]))
        } else {
            Err("unterminated escape"@)
        }
    } else if s[i] == '$' {
        match dollar_spec(s, i) {
            Err(e) => Err(e),
            Ok((p, j)) => if i < j <= s.len() {
                word_spec(s, j, flush(parts, lit).push(p), Seq::empty())
            } else {
                Err(Seq::empty())
            },
        }
    } else {
        word_spec(s, i + 1, parts, lit.push(s[i]))
    }
}

/// A redirection operator that starts with file descriptor digits
/// `s[j..k]`, followed by `>` at `k`: the token and the index after it.
pub open spec fn fd_redirect_spec(s: Seq<char>, j: int, k: int) -> (SpecToken, int) {
    let m = k + 1;
    let digits = s.subrange(j, k);
    let amp_then = |d: char| m + 1 < s.len() && s[m] == '&' && s[m + 1] == d;
    let gt = m < s.len() && s[m] == '>';
    if digits == seq!['2'] {
        if amp_then('1') {
            (SpecToken::DupErrToOut, m + 2)
        } else if gt {
            (SpecToken::ErrDGreat, m + 1)
        } else {
            (SpecToken::ErrGreat, m)
        }
    } else if digits == seq!['1'] {
        if amp_then('2') {
            (SpecToken::DupOutToErr, m + 2)
        } else if gt {
            (SpecToken::DGreat, m + 1)
        } else {
            (SpecToken::Great, m)
        }
    } else {
        if gt {
            (SpecToken::DGreat, m + 1)
        } else {
            (SpecToken::Great, m)
        }
    }
}

/// The operator token at index `j` (where `s[j]` starts one): the token
/// and the index after it; `None` when a word starts there.
pub open spec fn operator_spec(s: Seq<char>, j: int) -> Option<(SpecToken, int)> {
    let c = s[j];
    let next_is = |d: char| j + 1 < s.len() && s[j + 1] == d;
    if c == '\n' {
        Some((SpecToken::Newline, j + 1))
    } else if c == '|' {
        if next_is('|') { Some((SpecToken::OrIf, j + 2)) } else { Some((SpecToken::Pipe, j + 1)) }
    } else if c == '&' {
        if next_is('&') {
            Some((SpecToken::AndIf, j + 2))
        } else if next_is('>') {
            Some((SpecToken::AndGreat, j + 2))
        } else {
            Some((SpecToken::Amp, j + 1))
        }
    } else if c == ';' {
        if next_is(';') { Some((SpecToken::DSemi, j + 2)) } else { Some((SpecToken::Semi, j + 1)) }
    } else if c == '{' {
        Some((SpecToken::LBrace, j + 1))
    } else if c == '}' {
        Some((SpecToken::RBrace, j + 1))
    } else if c == '(' {
        Some((SpecToken::LParen, j + 1))
    } else if c == ')' {
        Some((SpecToken::RParen, j + 1))
    } else if c == '!' {
        if j + 1 >= s.len() || s[j + 1] == ' ' || s[j + 1] == '\t' || s[j + 1] == '\n' {
            Some((SpecToken::Bang, j + 1))
        } else {
            None
        }
    } else if c == '<' {
        Some((SpecToken::Less, j + 1))
    } else if c == '>' {
        if next_is('>') {
            Some((SpecToken::DGreat, j + 2))
        } else if next_is('&') {
            Some((SpecToken::AndGreat, j + 2))
        } else {
            Some((SpecToken::Great, j + 1))
        }
    } else if is_digit(c) {
        let k = digits_end(s, j);
        if k < s.len() && s[k] == '>' {
            Some(fd_redirect_spec(s, j, k))
        } else {
            None
        }
    } else {
        None
    }
}

/// The tokens of `s` from index `i` on, after the tokens `acc` already read.
pub open spec fn tokens_from(s: Seq<char>, i: int, acc: Seq<SpecToken>) -> Result<Seq<SpecToken>, Seq<char>>
    decreases s.len() - i,
{
    let j = skip_space_comment(s, i);
    if j < i || j >= s.len() {
        Ok(acc.push(SpecToken::Eof))
    } else {
        match operator_spec(s, j) {
            Some((t, k)) => if i < k <= s.len() {
                tokens_from(s, k, acc.push(t))
            } else {
                Err(Seq::empty())
            },
            None => match word_spec(s, j, Seq::empty(), Seq::empty()) {
                Err(e) => Err(e),
                // a word always takes at least one character
                Ok((w, k)) => if i < k <= s.len() {
                    tokens_from(s, k, acc.push(SpecToken::Word(w)))
                } else {
                    Err(Seq::empty())
                },
            },
        }
    }
}

/// The tokens of a source text: always ending with `Eof`, or the message
/// of the first lexical error.
pub open spec fn tokenize_spec(s: Seq<char>) -> Result<Seq<SpecToken>, Seq<char>> {
    tokens_from(s, 0, Seq::empty())
}


/// The token sequence the lexer makes ends with `Eof`, and holds no other `Eof`.
pub proof fn lemma_tokens_end_with_eof(s: Seq<char>, i: int, acc: Seq<SpecToken>)
    requires
        0 <= i,
        forall|k: int| 0 <= k < acc.len() ==> !(#[trigger] acc[k] is Eof),
    ensures
        tokens_from(s, i, acc) matches Ok(ts) ==> {
            &&& ts.len() > acc.len()
            &&& ts.subrange(0, acc.len() as int) == acc
            &&& ts.last() is Eof
            &&& forall|k: int| 0 <= k < ts.len() - 1 ==> !(#[trigger] ts[k] is Eof)
        },
    decreases s.len() - i,
{
    let j = skip_space_comment(s, i);
    if j < i || j >= s.len() {
        let ts = acc.push(SpecToken::Eof);
        assert(ts.subrange(0, acc.len() as int) =~= acc);
    } else {
        match operator_spec(s, j) {
            Some((t, k)) => if i < k <= s.len() {
                lemma_operator_not_eof(s, j);
                let acc2 = acc.push(t);
                lemma_tokens_end_with_eof(s, k, acc2);
                if let Ok(ts) = tokens_from(s, k, acc2) {
                    assert(ts.subrange(0, acc.len() as int) =~= ts.subrange(0, acc2.len() as int).subrange(0, acc.len() as int));
                }
            },
            None => match word_spec(s, j, Seq::empty(), Seq::empty()) {
                Err(e) => {},
                Ok((w, k)) => if i < k <= s.len() {
                    let acc2 = acc.push(SpecToken::Word(w));
                    lemma_tokens_end_with_eof(s, k, acc2);
                    if let Ok(ts) = tokens_from(s, k, acc2) {
                        assert(ts.subrange(0, acc.len() as int) =~= ts.subrange(0, acc2.len() as int).subrange(0, acc.len() as int));
                    }
                },
            },
        }
    }
}

proof fn lemma_operator_not_eof(s: Seq<char>, j: int)
    requires
        0 <= j < s.len(),
    ensures
        operator_spec(s, j) matches Some((t, _)) ==> !(t is Eof),
{
}

/// Model of the lexer's result.
pub open spec fn tokens_result_view(r: Result<Vec<Token>, String>) -> Result<Seq<SpecToken>, Seq<char>> {
    match r {
        Ok(ts) => Ok(tokens_view(ts@)),
        Err(e) => Err(e@),
    }
}

/// A cursor over the characters of a source text.
pub struct Lexer {
    chars: Vec<char>,
    pos: usize,
}

/// The word parts with one more part.
proof fn lemma_word_view_push(parts: Seq<WordPart>, p: WordPart)
    ensures
        word_view(parts.push(p)) == word_view(parts).push(p@),
{
    assert(word_view(parts.push(p)) =~= word_view(parts).push(p@));
}

/// Appends the pending literal text, if any, to the parts.
fn flush_lit(parts: &mut Vec<WordPart>, lit: &mut Vec<char>)
    ensures
        word_view(final(parts)@) == flush(word_view(old(parts)@), old(lit)@),
        final(lit)@ == Seq::<char>::empty(),
{
    if lit.len() > 0 {
        let s = string_from_chars(lit.as_slice());
        proof {
            lemma_word_view_push(parts@, WordPart::Literal(s));
        }
        parts.push(WordPart::Literal(s));
        *lit = Vec::new();
    }
}

fn is_word_boundary(c: char) -> (r: bool)
    ensures
        r == is_word_boundary_spec(c),
{
    c == ' ' || c == '\t' || c == '\n' || c == '|' || c == '&' || c == ';' || c == '<' || c == '>'
        || c == '(' || c == ')' || c == '{' || c == '}'
}

impl Lexer {
    /// The source text.
    pub closed spec fn input(&self) -> Seq<char> {
        self.chars@
    }

    /// How many characters have been consumed.
    pub closed spec fn position(&self) -> int {
        self.pos as int
    }

    pub fn new(input: &str) -> (l: Lexer)
        ensures
            l.input() == input@,
            l.position() == 0,
    {
        Lexer { chars: chars_of(input), pos: 0 }
    }

    /// Splits the rest of the text into tokens, ending with `Eof`.
    #[verifier::loop_isolation(false)]
    pub fn tokenize(self) -> (r: Result<Vec<Token>, String>)
        requires
            0 <= self.position() <= self.input().len(),
        ensures
            tokens_result_view(r) == tokens_from(self.input(), self.position(), Seq::empty()),
    {
        let ghost s = self.chars@;
        let ghost start = self.pos as int;
        let mut lx = self;
        let n = lx.chars.len();
        let mut tokens: Vec<Token> = Vec::new();
        assert(tokens_view(tokens@) =~= Seq::<SpecToken>::empty());
        loop
            invariant
                lx.chars@ == s,
                n == s.len(),
                lx.pos <= n,
                tokens_from(s, lx.pos as int, tokens_view(tokens@)) == tokens_from(s, start, Seq::empty()),
            decreases n - lx.pos,
        {
            let ghost i = lx.pos as int;
            let ghost acc = tokens_view(tokens@);
            lx.skip_spaces_and_comments();
            if lx.pos >= n {
                proof {
                    assert(tokens_view(tokens@.push(Token::Eof)) =~= acc.push(SpecToken::Eof));
                }
                tokens.push(Token::Eof);
                return Ok(tokens);
            }
            match lx.read_operator() {
                Some(t) => {
                    proof {
                        assert(tokens_view(tokens@.push(t)) =~= acc.push(t@));
                    }
                    tokens.push(t);
                },
                None => {
                    match lx.read_word() {
                        Ok(w) => {
                            proof {
                                assert(tokens_view(tokens@.push(Token::Word(w))) =~= acc.push(
                                    SpecToken::Word(word_view(w@)),
                                ));
                            }
                            tokens.push(Token::Word(w));
                        },
                        Err(e) => {
                            return Err(e);
                        },
                    }
                },
            }
        }
    }

    #[verifier::loop_isolation(false)]
    fn skip_spaces_and_comments(&mut self)
        requires
            old(self).pos <= old(self).chars@.len(),
        ensures
            final(self).chars@ == old(self).chars@,
            final(self).pos == skip_space_comment(old(self).chars@, old(self).pos as int),
            old(self).pos <= final(self).pos <= final(self).chars@.len(),
            final(self).pos < final(self).chars@.len() ==> {
                let c = final(self).chars@[final(self).pos as int];
                c != ' ' && c != '\t' && c != '#'
            },
    {
        let ghost s = self.chars@;
        let ghost i0 = self.pos as int;
        let n = self.chars.len();
        while self.pos < n && (self.chars[self.pos] == ' ' || self.chars[self.pos] == '\t')
            invariant
                self.chars@ == s,
                n == s.len(),
                i0 <= self.pos <= n,
                skip_blanks(s, self.pos as int) == skip_blanks(s, i0),
            decreases n - self.pos,
        {
            self.pos = self.pos + 1;
        }
        if self.pos < n && self.chars[self.pos] == '#' {
            let ghost j = self.pos as int;
            while self.pos < n && self.chars[self.pos] != '\n'
                invariant
                    self.chars@ == s,
                    n == s.len(),
                    i0 <= j <= self.pos <= n,
                    line_end(s, self.pos as int) == line_end(s, j),
                decreases n - self.pos,
            {
                self.pos = self.pos + 1;
            }
        }
    }

    /// The operator token at the cursor, if one starts there; the cursor
    /// stays where it is otherwise.
    #[verifier::loop_isolation(false)]
    fn read_operator(&mut self) -> (r: Option<Token>)
        requires
            old(self).pos < old(self).chars@.len(),
        ensures
            final(self).chars@ == old(self).chars@,
            final(self).pos <= final(self).chars@.len(),
            match r {
                Some(t) => operator_spec(old(self).chars@, old(self).pos as int) == Some(
                    (t@, final(self).pos as int),
                ) && final(self).pos > old(self).pos,
                None => operator_spec(old(self).chars@, old(self).pos as int) is None
                    && final(self).pos == old(self).pos,
            },
    {
        let ghost s = self.chars@;
        let n = self.chars.len();
        let j = self.pos;
        let c = self.chars[j];
        let next = if j + 1 < n { Some(self.chars[j + 1]) } else { None };
        if c == '\n' {
            self.pos = j + 1;
            Some(Token::Newline)
        } else if c == '|' {
            if next == Some('|') {
                self.pos = j + 2;
                Some(Token::OrIf)
            } else {
                self.pos = j + 1;
                Some(Token::Pipe)
            }
        } else if c == '&' {
            if next == Some('&') {
                self.pos = j + 2;
                Some(Token::AndIf)
            } else if next == Some('>') {
                self.pos = j + 2;
                Some(Token::AndGreat)
            } else {
                self.pos = j + 1;
                Some(Token::Amp)
            }
        } else if c == ';' {
            if next == Some(';') {
                self.pos = j + 2;
                Some(Token::DSemi)
            } else {
                self.pos = j + 1;
                Some(Token::Semi)
            }
        } else if c == '{' {
            self.pos = j + 1;
            Some(Token::LBrace)
        } else if c == '}' {
            self.pos = j + 1;
            Some(Token::RBrace)
        } else if c == '(' {
            self.pos = j + 1;
            Some(Token::LParen)
        } else if c == ')' {
            self.pos = j + 1;
            Some(Token::RParen)
        } else if c == '!' {
            if next.is_none() || next == Some(' ') || next == Some('\t') || next == Some('\n') {
                self.pos = j + 1;
                Some(Token::Bang)
            } else {
                None
            }
        } else if c == '<' {
            self.pos = j + 1;
            Some(Token::Less)
        } else if c == '>' {
            if next == Some('>') {
                self.pos = j + 2;
                Some(Token::DGreat)
            } else if next == Some('&') {
                self.pos = j + 2;
                Some(Token::AndGreat)
            } else {
                self.pos = j + 1;
                Some(Token::Great)
            }
        } else if '0' <= c && c <= '9' {
            let mut k = j;
            while k < n && '0' <= self.chars[k] && self.chars[k] <= '9'
                invariant
                    self.chars@ == s,
                    n == s.len(),
                    j <= k <= n,
                    digits_end(s, k as int) == digits_end(s, j as int),
                decreases n - k,
            {
                k = k + 1;
            }
            if k < n && self.chars[k] == '>' {
                let m = k + 1;
                let gt = m < n && self.chars[m] == '>';
                let two = k == j + 1 && c == '2';
                let one = k == j + 1 && c == '1';
                proof {
                    let digits = s.subrange(j as int, k as int);
                    if k == j + 1 {
                        assert(digits =~= seq![c]);
                    } else {
                        assert(digits.len() != 1);
                    }
                    if two {
                        assert(digits =~= seq!['2']);
                    } else {
                        assert(digits != seq!['2']) by {
                            if k == j + 1 {
                                assert(digits[0] != '2');
                            }
                        }
                    }
                    if one {
                        assert(digits =~= seq!['1']);
                    } else {
                        assert(digits != seq!['1']) by {
                            if k == j + 1 {
                                assert(digits[0] != '1');
                            }
                        }
                    }
                }
                let amp = m < n && m + 1 < n && self.chars[m] == '&';
                if two {
                    if amp && self.chars[m + 1] == '1' {
                        self.pos = m + 2;
                        Some(Token::DupErrToOut)
                    } else if gt {
                        self.pos = m + 1;
                        Some(Token::ErrDGreat)
                    } else {
                        self.pos = m;
                        Some(Token::ErrGreat)
                    }
                } else if one {
                    if amp && self.chars[m + 1] == '2' {
                        self.pos = m + 2;
                        Some(Token::DupOutToErr)
                    } else if gt {
                        self.pos = m + 1;
                        Some(Token::DGreat)
                    } else {
                        self.pos = m;
                        Some(Token::Great)
                    }
                } else if gt {
                    self.pos = m + 1;
                    Some(Token::DGreat)
                } else {
                    self.pos = m;
                    Some(Token::Great)
                }
            } else {
                None
            }
        } else {
            None
        }
    }

    /// Reads a word from the cursor.
    #[verifier::loop_isolation(false)]
    fn read_word(&mut self) -> (r: Result<Word, String>)
        requires
            old(self).pos <= old(self).chars@.len(),
        ensures
            final(self).chars@ == old(self).chars@,
            final(self).pos <= final(self).chars@.len(),
            match r {
                Ok(w) => word_spec(old(self).chars@, old(self).pos as int, Seq::empty(), Seq::empty())
                    == Ok::<(SpecWord, int), Seq<char>>((word_view(w@), final(self).pos as int))
                    && (old(self).pos < old(self).chars@.len()
                        && !is_word_boundary_spec(old(self).chars@[old(self).pos as int])
                        ==> final(self).pos > old(self).pos),
                Err(e) => word_spec(old(self).chars@, old(self).pos as int, Seq::empty(), Seq::empty())
                    == Err::<(SpecWord, int), Seq<char>>(e@),
            },
    {
        let ghost s = self.chars@;
        let ghost i0 = self.pos as int;
        let n = self.chars.len();
        let mut parts: Vec<WordPart> = Vec::new();
        let mut lit: Vec<char> = Vec::new();
        proof {
            assert(word_view(parts@) =~= Seq::<SpecWordPart>::empty());
        }
        loop
            invariant
                self.chars@ == s,
                n == s.len(),
                i0 <= self.pos <= n,
                word_spec(s, self.pos as int, word_view(parts@), lit@) == word_spec(s, i0, Seq::empty(), Seq::empty()),
            decreases n - self.pos,
        {
            if self.pos >= n || is_word_boundary(self.chars[self.pos]) {
                break;
            }
            let c = self.chars[self.pos];
            if c == '\'' {
                self.pos = self.pos + 1;
                let ghost q = self.pos as int;
                let ghost lit0 = lit@;
                while self.pos < n && self.chars[self.pos] != '\''
                    invariant
                        self.chars@ == s,
                        n == s.len(),
                        q <= self.pos <= n,
                        find_char(s, self.pos as int, '\'') == find_char(s, q, '\''),
                        lit@ == lit0 + s.subrange(q, self.pos as int),
                    decreases n - self.pos,
                {
                    lit.push(self.chars[self.pos]);
                    self.pos = self.pos + 1;
                    assert(lit@ =~= lit0 + s.subrange(q, self.pos as int));
                }
                if self.pos < n {
                    self.pos = self.pos + 1;
                }
            } else if c == '"' {
                self.pos = self.pos + 1;
                match self.read_dquoted(&mut parts, &mut lit) {
                    Ok(()) => {},
                    Err(e) => {
                        return Err(e);
                    },
                }
            } else if c == '\\' {
                if self.pos + 1 < n {
                    lit.push(self.chars[self.pos + 1]);
                    self.pos = self.pos + 2;
                } else {
                    return Err("unterminated escape".to_string());
                }
            } else if c == '$' {
                flush_lit(&mut parts, &mut lit);
                match self.read_dollar() {
                    Ok(p) => {
                        proof {
                            lemma_word_view_push(parts@, p);
                        }
                        parts.push(p);
                    },
                    Err(e) => {
                        return Err(e);
                    },
                }
            } else {
                lit.push(c);
                self.pos = self.pos + 1;
            }
        }
        let ghost pv = word_view(parts@);
        let ghost lv = lit@;
        assert(word_spec(s, self.pos as int, pv, lv) == Ok::<(SpecWord, int), Seq<char>>((finish_word(pv, lv), self.pos as int)));
        flush_lit(&mut parts, &mut lit);
        if parts.len() == 0 {
            let e = String::new();
            proof {
                lemma_word_view_push(parts@, WordPart::Literal(e));
                assert(parts@.push(WordPart::Literal(e)) =~= seq![WordPart::Literal(e)]);
            }
            parts.push(WordPart::Literal(e));
        }
        assert(word_view(parts@) == finish_word(pv, lv));
        assert(old(self).pos < old(self).chars@.len()
            && !is_word_boundary_spec(old(self).chars@[old(self).pos as int])
            ==> self.pos > old(self).pos);
        Ok(parts)
    }

    /// Reads the rest of a double-quoted string, after its opening quote,
    /// into the parts and the pending literal text.
    #[verifier::loop_isolation(false)]
    fn read_dquoted(&mut self, parts: &mut Vec<WordPart>, lit: &mut Vec<char>) -> (r: Result<(), String>)
        requires
            old(self).pos <= old(self).chars@.len(),
        ensures
            final(self).chars@ == old(self).chars@,
            final(self).pos <= final(self).chars@.len(),
            match r {
                Ok(()) => dquote_spec(old(self).chars@, old(self).pos as int, word_view(old(parts)@), old(lit)@)
                    == Ok::<(SpecWord, Seq<char>, int), Seq<char>>((word_view(final(parts)@), final(lit)@, final(self).pos as int))
                    && final(self).pos > old(self).pos,
                Err(e) => dquote_spec(old(self).chars@, old(self).pos as int, word_view(old(parts)@), old(lit)@)
                    == Err::<(SpecWord, Seq<char>, int), Seq<char>>(e@),
            },
    {
        let ghost s = self.chars@;
        let ghost i0 = self.pos as int;
        let ghost goal = dquote_spec(s, i0, word_view(parts@), lit@);
        let n = self.chars.len();
        loop
            invariant
                self.chars@ == s,
                n == s.len(),
                i0 <= self.pos <= n,
                dquote_spec(s, self.pos as int, word_view(parts@), lit@) == goal,
                goal == dquote_spec(s, i0, word_view(old(parts)@), old(lit)@),
            decreases n - self.pos,
        {
            if self.pos >= n {
                return Err("unterminated double-quoted string".to_string());
            }
            let c = self.chars[self.pos];
            if c == '"' {
                self.pos = self.pos + 1;
                return Ok(());
            } else if c == '\\' {
                if self.pos + 1 >= n {
                    return Err("unterminated double-quoted string".to_string());
                }
                let c2 = self.chars[self.pos + 1];
                if c2 == '"' || c2 == '\\' || c2 == '$' {
                    lit.push(c2);
                } else if c2 == '\n' {
                } else {
                    lit.push('\\');
                    lit.push(c2);
                }
                self.pos = self.pos + 2;
            } else if c == '$' {
                flush_lit(parts, lit);
                match self.read_dollar() {
                    Ok(p) => {
                        proof {
                            lemma_word_view_push(parts@, p);
                        }
                        parts.push(p);
                    },
                    Err(e) => {
                        return Err(e);
                    },
                }
            } else {
                lit.push(c);
                self.pos = self.pos + 1;
            }
        }
    }

    /// Reads what follows a `$` at the cursor.
    #[verifier::loop_isolation(false)]
    fn read_dollar(&mut self) -> (r: Result<WordPart, String>)
        requires
            old(self).pos < old(self).chars@.len(),
            old(self).chars@[old(self).pos as int] == '$',
        ensures
            final(self).chars@ == old(self).chars@,
            final(self).pos <= final(self).chars@.len(),
            match r {
                Ok(p) => dollar_spec(old(self).chars@, old(self).pos as int) == Ok::<(SpecWordPart, int), Seq<char>>((p@, final(self).pos as int))
                    && final(self).pos > old(self).pos,
                Err(e) => dollar_spec(old(self).chars@, old(self).pos as int)
                    == Err::<(SpecWordPart, int), Seq<char>>(e@),
            },
    {
        let ghost s = self.chars@;
        let n = self.chars.len();
        let k = self.pos + 1;
        self.pos = k;
        if k < n && self.chars[k] == '(' {
            if k + 1 < n && self.chars[k + 1] == '(' {
                let mut i = k + 2;
                let mut depth: usize = 0;
                let mut src: Vec<char> = Vec::new();
                loop
                    invariant
                        self.chars@ == s,
                        n == s.len(),
                        k + 2 <= i <= n,
                        depth <= i,
                        self.pos == k,
                        arith_scan(s, i as int, depth as nat, src@) == arith_scan(s, k + 2, 0, Seq::empty()),
                    decreases n - i,
                {
                    if i >= n {
                        return Err("unterminated arithmetic expansion".to_string());
                    }
                    let c = self.chars[i];
                    if c == '(' {
                        src.push('(');
                        depth = depth + 1;
                        i = i + 1;
                    } else if c == ')' {
                        if depth == 0 {
                            if i + 1 < n && self.chars[i + 1] == ')' {
                                self.pos = i + 2;
                                return Ok(WordPart::Arith(string_from_chars(src.as_slice())));
                            } else {
                                src.push(')');
                                i = i + 1;
                            }
                        } else {
                            src.push(')');
                            depth = depth - 1;
                            i = i + 1;
                        }
                    } else {
                        src.push(c);
                        i = i + 1;
                    }
                }
            } else {
                let mut i = k + 1;
                let mut depth: usize = 1;
                let mut src: Vec<char> = Vec::new();
                loop
                    invariant
                        self.chars@ == s,
                        n == s.len(),
                        k + 1 <= i <= n,
                        1 <= depth <= i,
                        self.pos == k,
                        cmdsub_scan(s, i as int, depth as nat, src@) == cmdsub_scan(s, k + 1, 1, Seq::empty()),
                    decreases n - i,
                {
                    if i >= n {
                        return Err("unterminated command substitution".to_string());
                    }
                    let c = self.chars[i];
                    if c == '(' {
                        src.push('(');
                        depth = depth + 1;
                        i = i + 1;
                    } else if c == ')' {
                        if depth <= 1 {
                            self.pos = i + 1;
                            return Ok(WordPart::CmdSub(string_from_chars(src.as_slice())));
                        } else {
                            src.push(')');
                            depth = depth - 1;
                            i = i + 1;
                        }
                    } else {
                        src.push(c);
                        i = i + 1;
                    }
                }
            }
        } else if k < n && self.chars[k] == '{' {
            let mut i = k + 1;
            let mut name: Vec<char> = Vec::new();
            while i < n && self.chars[i] != '}'
                invariant
                    self.chars@ == s,
                    n == s.len(),
                    k + 1 <= i <= n,
                    find_char(s, i as int, '}') == find_char(s, k + 1, '}'),
                    name@ == s.subrange(k + 1, i as int),
                decreases n - i,
            {
                name.push(self.chars[i]);
                i = i + 1;
                assert(name@ =~= s.subrange(k + 1, i as int));
            }
            self.pos = if i < n { i + 1 } else { i };
            Ok(WordPart::Var(string_from_chars(name.as_slice())))
        } else if k < n && (self.chars[k] == '?' || self.chars[k] == '$' || self.chars[k] == '#' || self.chars[k] == '!'
            || self.chars[k] == '@' || self.chars[k] == '*' || ('0' <= self.chars[k] && self.chars[k] <= '9')) {
            let mut name: Vec<char> = Vec::new();
            name.push(self.chars[k]);
            self.pos = k + 1;
            Ok(WordPart::Var(string_from_chars(name.as_slice())))
        } else if k < n && (is_alphabetic(self.chars[k]) || self.chars[k] == '_') {
            let mut i = k;
            let mut name: Vec<char> = Vec::new();
            while i < n && (is_alphanumeric(self.chars[i]) || self.chars[i] == '_')
                invariant
                    self.chars@ == s,
                    n == s.len(),
                    k <= i <= n,
                    name_end(s, i as int) == name_end(s, k as int),
                    name@ == s.subrange(k as int, i as int),
                decreases n - i,
            {
                name.push(self.chars[i]);
                i = i + 1;
                assert(name@ =~= s.subrange(k as int, i as int));
            }
            self.pos = i;
            Ok(WordPart::Var(string_from_chars(name.as_slice())))
        } else {
            Ok(WordPart::Literal("$".to_string()))
        }
    }
}

/// Every token sequence the lexer makes ends with `Eof`, and `Eof` occurs
/// nowhere else in it.
pub proof fn tokens_end_with_one_eof(s: Seq<char>)
    ensures
        tokenize_spec(s) matches Ok(ts) ==> {
            &&& ts.len() > 0
            &&& ts.last() is Eof
            &&& forall|k: int| 0 <= k < ts.len() - 1 ==> !(#[trigger] ts[k] is Eof)
        },
{
    lemma_tokens_end_with_eof(s, 0, Seq::empty());
}

proof fn lemma_skip_blanks(s: Seq<char>, i: int)
    requires
        0 <= i <= s.len(),
    ensures
        i <= skip_blanks(s, i) <= s.len(),
        skip_blanks(s, i) < s.len() ==> s[skip_blanks(s, i)] != ' ' && s[skip_blanks(s, i)] != '\t',
        forall|k: int| i <= k < skip_blanks(s, i) ==> #[trigger] s[k] == ' ' || s[k] == '\t',
    decreases s.len() - i,
{
    if i < s.len() && (s[i] == ' ' || s[i] == '\t') {
        lemma_skip_blanks(s, i + 1);
    }
}

proof fn lemma_line_end(s: Seq<char>, i: int)
    requires
        0 <= i <= s.len(),
    ensures
        i <= line_end(s, i) <= s.len(),
        line_end(s, i) < s.len() ==> s[line_end(s, i)] == '\n',
        forall|k: int| i <= k < line_end(s, i) ==> #[trigger] s[k] != '\n',
    decreases s.len() - i,
{
    if i < s.len() && s[i] != '\n' {
        lemma_line_end(s, i + 1);
    }
}

/// Skipping blanks and a comment stops at the start of a token or at the
/// end: never on a space, a tab or `#`, and never past a line feed.
pub proof fn skip_stops_at_token_start(s: Seq<char>, i: int)
    requires
        0 <= i <= s.len(),
    ensures
        i <= skip_space_comment(s, i) <= s.len(),
        skip_space_comment(s, i) < s.len() ==> {
            let c = s[skip_space_comment(s, i)];
            c != ' ' && c != '\t' && c != '#'
        },
        forall|k: int| i <= k < skip_space_comment(s, i) ==> #[trigger] s[k] != '\n',
{
    lemma_skip_blanks(s, i);
    let j = skip_blanks(s, i);
    if j < s.len() && s[j] == '#' {
        lemma_line_end(s, j);
        assert forall|k: int| i <= k < skip_space_comment(s, i) implies #[trigger] s[k] != '\n' by {
            if k < j {
                assert(s[k] == ' ' || s[k] == '\t');
            }
        }
    } else {
        assert forall|k: int| i <= k < skip_space_comment(s, i) implies #[trigger] s[k] != '\n' by {
            assert(s[k] == ' ' || s[k] == '\t');
        }
    }
}

/// No literal part of the word is empty.
pub open spec fn literals_nonempty(w: SpecWord) -> bool {
    forall|k: int| 0 <= k < w.len() && (#[trigger] w[k]) is Literal ==> w[k]->Literal_0.len() > 0
}

proof fn lemma_push_part(parts: SpecWord, p: SpecWordPart)
    requires
        literals_nonempty(parts),
        p is Literal ==> p->Literal_0.len() > 0,
    ensures
        literals_nonempty(parts.push(p)),
{
    assert forall|k: int| 0 <= k < parts.push(p).len() && (#[trigger] parts.push(p)[k]) is Literal implies parts.push(
        p,
    )[k]->Literal_0.len() > 0 by {
        if k < parts.len() {
            assert(parts.push(p)[k] == parts[k]);
        }
    }
}

proof fn lemma_flush_parts(parts: SpecWord, lit: Seq<char>)
    requires
        literals_nonempty(parts),
    ensures
        literals_nonempty(flush(parts, lit)),
{
    if lit.len() > 0 {
        lemma_push_part(parts, SpecWordPart::Literal(lit));
    }
}

proof fn lemma_dollar_part(s: Seq<char>, i: int)
    ensures
        dollar_spec(s, i) matches Ok((p, _)) ==> (p is Literal ==> p->Literal_0.len() > 0),
{
    reveal_strlit("$");
}

proof fn lemma_dquote_parts(s: Seq<char>, i: int, parts: SpecWord, lit: Seq<char>)
    requires
        literals_nonempty(parts),
    ensures
        dquote_spec(s, i, parts, lit) matches Ok((p, _, _)) ==> literals_nonempty(p),
    decreases s.len() - i,
{
    if 0 <= i < s.len() && s[i] != '"' {
        if s[i] == '\\' {
            if i + 1 < s.len() {
                if s[i + 1] == '"' || s[i + 1] == '\\' || s[i + 1] == '$' {
                    lemma_dquote_parts(s, i + 2, parts, lit.push(s[i + 1]));
                } else if s[i + 1] == '\n' {
                    lemma_dquote_parts(s, i + 2, parts, lit);
                } else {
                    lemma_dquote_parts(s, i + 2, parts, lit.push('\\').push(s[i + 1]));
                }
            }
        } else if s[i] == '$' {
            lemma_dollar_part(s, i);
            match dollar_spec(s, i) {
                Ok((p, j)) => if i < j <= s.len() {
                    lemma_flush_parts(parts, lit);
                    lemma_push_part(flush(parts, lit), p);
                    lemma_dquote_parts(s, j, flush(parts, lit).push(p), Seq::empty());
                },
                Err(_) => {},
            }
        } else {
            lemma_dquote_parts(s, i + 1, parts, lit.push(s[i]));
        }
    }
}

proof fn lemma_word_parts(s: Seq<char>, i: int, parts: SpecWord, lit: Seq<char>)
    requires
        0 <= i,
        literals_nonempty(parts),
    ensures
        word_spec(s, i, parts, lit) matches Ok((w, j)) ==> {
            &&& w.len() >= 1
            &&& w == seq![SpecWordPart::Literal(Seq::empty())] || literals_nonempty(w)
            &&& i <= j
            &&& j >= s.len() || is_word_boundary_spec(s[j])
        },
    decreases s.len() - i,
{
    if i >= s.len() || is_word_boundary_spec(s[i]) {
        lemma_flush_parts(parts, lit);
    } else if s[i] == '\'' {
        let e = find_char(s, i + 1, '\'');
        let j = if e < s.len() { e + 1 } else { e };
        if i < j <= s.len() && i + 1 <= e <= s.len() {
            lemma_word_parts(s, j, parts, lit + s.subrange(i + 1, e));
        }
    } else if s[i] == '"' {
        lemma_dquote_parts(s, i + 1, parts, lit);
        match dquote_spec(s, i + 1, parts, lit) {
            Ok((p, l, j)) => if i < j <= s.len() {
                lemma_word_parts(s, j, p, l);
            },
            Err(_) => {},
        }
    } else if s[i] == '\\' {
        if i + 1 < s.len() {
            lemma_word_parts(s, i + 2, parts, lit.push(s[i + 1]));
        }
    } else if s[i] == '$' {
        lemma_dollar_part(s, i);
        match dollar_spec(s, i) {
            Ok((p, j)) => if i < j <= s.len() {
                lemma_flush_parts(parts, lit);
                lemma_push_part(flush(parts, lit), p);
                lemma_word_parts(s, j, flush(parts, lit).push(p), Seq::empty());
            },
            Err(_) => {},
        }
    } else {
        lemma_word_parts(s, i + 1, parts, lit.push(s[i]));
    }
}

/// A word the lexer reads has at least one part; it is the single empty
/// literal or has no empty literal part; and it ends at the end of the text
/// or at a character that ends words.
pub proof fn words_are_well_formed(s: Seq<char>, i: int)
    requires
        0 <= i,
    ensures
        word_spec(s, i, Seq::empty(), Seq::empty()) matches Ok((w, j)) ==> {
            &&& w.len() >= 1
            &&& w == seq![SpecWordPart::Literal(Seq::empty())] || literals_nonempty(w)
            &&& i <= j
            &&& j >= s.len() || is_word_boundary_spec(s[j])
        },
{
    lemma_word_parts(s, i, Seq::empty(), Seq::empty());
}

/// Inside double quotes, a backslash before `"`, a backslash or `$` stands for
/// that character alone: the backslash is dropped and the character is
/// taken literally.
pub proof fn escapes_in_double_quotes(s: Seq<char>, i: int, parts: SpecWord, lit: Seq<char>)
    requires
        0 <= i,
        i + 1 < s.len(),
        s[i] == '\\',
    ensures
        s[i + 1] == '"' ==> dquote_spec(s, i, parts, lit) == dquote_spec(s, i + 2, parts, lit.push('"')),
        s[i + 1] == '\\' ==> dquote_spec(s, i, parts, lit) == dquote_spec(s, i + 2, parts, lit.push('\\')),
        s[i + 1] == '$' ==> dquote_spec(s, i, parts, lit) == dquote_spec(s, i + 2, parts, lit.push('$')),
{
}

/// A character that stands for itself inside double quotes.
pub open spec fn is_plain_in_dquotes(c: char) -> bool {
    c != '"' && c != '\\' && c != '$'
}

/// A run of plain characters inside double quotes is added to the literal
/// text as it stands.
proof fn lemma_dquote_plain_run(s: Seq<char>, i: int, k: int, parts: SpecWord, lit: Seq<char>)
    requires
        0 <= i,
        0 <= k,
        i + k <= s.len(),
        forall|j: int| i <= j < i + k ==> is_plain_in_dquotes(#[trigger] s[j]),
    ensures
        dquote_spec(s, i, parts, lit) == dquote_spec(s, i + k, parts, lit + s.subrange(i, i + k)),
    decreases k,
{
    if k == 0 {
        assert(lit + s.subrange(i, i) =~= lit);
    } else {
        assert(is_plain_in_dquotes(s[i]));
        lemma_dquote_plain_run(s, i + 1, k - 1, parts, lit.push(s[i]));
        assert(lit.push(s[i]) + s.subrange(i + 1, i + k) =~= lit + s.subrange(i, i + k));
    }
}

/// The line `"a\"b"`, where `a` and `b` hold no `"`, backslash or `$`, is one
/// word whose text is `a`, a double quote, and `b`.
pub proof fn escaped_quote_inside_double_quotes(a: Seq<char>, b: Seq<char>)
    requires
        forall|j: int| 0 <= j < a.len() ==> is_plain_in_dquotes(#[trigger] a[j]),
        forall|j: int| 0 <= j < b.len() ==> is_plain_in_dquotes(#[trigger] b[j]),
    ensures
        tokenize_spec(seq!['"'] + a + seq!['\\', '"'] + b + seq!['"']) == Ok::<Seq<SpecToken>, Seq<char>>(
            seq![SpecToken::Word(seq![SpecWordPart::Literal(a + seq!['"'] + b)]), SpecToken::Eof],
        ),
{
    let s = seq!['"'] + a + seq!['\\', '"'] + b + seq!['"'];
    let n = s.len() as int;
    let na = a.len() as int;
    let nb = b.len() as int;
    let e: SpecWord = Seq::empty();
    assert(s[0] == '"');
    assert(s.subrange(1, 1 + na) =~= a);
    assert forall|j: int| 1 <= j < 1 + na implies is_plain_in_dquotes(#[trigger] s[j]) by {
        assert(s[j] == a[j - 1]);
    }
    lemma_dquote_plain_run(s, 1, na, e, Seq::empty());
    assert(Seq::<char>::empty() + a =~= a);
    assert(s[1 + na] == '\\' && s[2 + na] == '"');
    escapes_in_double_quotes(s, 1 + na, e, a);
    assert(s.subrange(3 + na, 3 + na + nb) =~= b);
    assert forall|j: int| 3 + na <= j < 3 + na + nb implies is_plain_in_dquotes(#[trigger] s[j]) by {
        assert(s[j] == b[j - 3 - na]);
    }
    lemma_dquote_plain_run(s, 3 + na, nb, e, a.push('"'));
    assert(a.push('"') + b =~= a + seq!['"'] + b);
    let text = a + seq!['"'] + b;
    assert(s[n - 1] == '"');
    assert(dquote_spec(s, n - 1, e, text) == Ok::<(SpecWord, Seq<char>, int), Seq<char>>((e, text, n)));
    assert(dquote_spec(s, 1, e, Seq::empty()) == Ok::<(SpecWord, Seq<char>, int), Seq<char>>((e, text, n)));
    assert(text.len() > 0);
    let w = seq![SpecWordPart::Literal(text)];
    assert(finish_word(e, text) == w);
    assert(word_spec(s, n, e, text) == Ok::<(SpecWord, int), Seq<char>>((w, n)));
    assert(word_spec(s, 0, e, Seq::empty()) == Ok::<(SpecWord, int), Seq<char>>((w, n)));
    assert(skip_blanks(s, 0) == 0);
    assert(skip_space_comment(s, 0) == 0);
    assert(operator_spec(s, 0) is None);
    assert(skip_blanks(s, n) == n);
    let acc = Seq::<SpecToken>::empty().push(SpecToken::Word(w));
    assert(tokens_from(s, n, acc) == Ok::<Seq<SpecToken>, Seq<char>>(acc.push(SpecToken::Eof)));
    assert(acc.push(SpecToken::Eof) =~= seq![SpecToken::Word(w), SpecToken::Eof]);
}

/// Each operator text is read as its token, with the longest match taken:
/// `|` and `||`, `&`, `&&` and `&>`, `;` and `;;`, `<`, `>`, `>>` and `>&`,
/// line feeds, braces and parentheses.
pub proof fn operators_read_as_tokens(s: Seq<char>, j: int)
    requires
        0 <= j < s.len(),
    ensures
        ({
            let next = |c: char| j + 1 < s.len() && s[j + 1] == c;
            &&& s[j] == '|' && next('|') ==> operator_spec(s, j) == Some((SpecToken::OrIf, j + 2))
            &&& s[j] == '|' && !next('|') ==> operator_spec(s, j) == Some((SpecToken::Pipe, j + 1))
            &&& s[j] == '&' && next('&') ==> operator_spec(s, j) == Some((SpecToken::AndIf, j + 2))
            &&& s[j] == '&' && next('>') ==> operator_spec(s, j) == Some((SpecToken::AndGreat, j + 2))
            &&& s[j] == '&' && !next('&') && !next('>') ==> operator_spec(s, j) == Some((SpecToken::Amp, j + 1))
            &&& s[j] == ';' && next(';') ==> operator_spec(s, j) == Some((SpecToken::DSemi, j + 2))
            &&& s[j] == ';' && !next(';') ==> operator_spec(s, j) == Some((SpecToken::Semi, j + 1))
            &&& s[j] == '<' ==> operator_spec(s, j) == Some((SpecToken::Less, j + 1))
            &&& s[j] == '>' && next('>') ==> operator_spec(s, j) == Some((SpecToken::DGreat, j + 2))
            &&& s[j] == '>' && next('&') ==> operator_spec(s, j) == Some((SpecToken::AndGreat, j + 2))
            &&& s[j] == '>' && !next('>') && !next('&') ==> operator_spec(s, j) == Some((SpecToken::Great, j + 1))
            &&& s[j] == '\n' ==> operator_spec(s, j) == Some((SpecToken::Newline, j + 1))
            &&& s[j] == '{' ==> operator_spec(s, j) == Some((SpecToken::LBrace, j + 1))
            &&& s[j] == '}' ==> operator_spec(s, j) == Some((SpecToken::RBrace, j + 1))
            &&& s[j] == '(' ==> operator_spec(s, j) == Some((SpecToken::LParen, j + 1))
            &&& s[j] == ')' ==> operator_spec(s, j) == Some((SpecToken::RParen, j + 1))
        }),
{
}

/// Redirections of a numbered stream: `2>` and `2>>` write the error
/// stream, `2>&1` sends it to the output; `1>` and `1>>` are the plain
/// output redirections, and `1>&2` sends the output to the error stream.
pub proof fn numbered_redirections(s: Seq<char>, j: int)
    requires
        0 <= j,
        j + 1 < s.len(),
        s[j + 1] == '>',
        s[j] == '1' || s[j] == '2',
    ensures
        ({
            let at = |k: int, c: char| k < s.len() && s[k] == c;
            &&& s[j] == '2' && at(j + 2, '&') && at(j + 3, '1') ==> operator_spec(s, j) == Some(
                (SpecToken::DupErrToOut, j + 4),
            )
            &&& s[j] == '2' && !(at(j + 2, '&') && at(j + 3, '1')) && at(j + 2, '>') ==> operator_spec(s, j)
                == Some((SpecToken::ErrDGreat, j + 3))
            &&& s[j] == '2' && !(at(j + 2, '&') && at(j + 3, '1')) && !at(j + 2, '>') ==> operator_spec(s, j)
                == Some((SpecToken::ErrGreat, j + 2))
            &&& s[j] == '1' && at(j + 2, '&') && at(j + 3, '2') ==> operator_spec(s, j) == Some(
                (SpecToken::DupOutToErr, j + 4),
            )
            &&& s[j] == '1' && !(at(j + 2, '&') && at(j + 3, '2')) && at(j + 2, '>') ==> operator_spec(s, j)
                == Some((SpecToken::DGreat, j + 3))
            &&& s[j] == '1' && !(at(j + 2, '&') && at(j + 3, '2')) && !at(j + 2, '>') ==> operator_spec(s, j)
                == Some((SpecToken::Great, j + 2))
        }),
{
    assert(digits_end(s, j + 1) == j + 1);
    assert(digits_end(s, j) == j + 1);
    assert(s.subrange(j, j + 1) =~= seq![s[j]]);
    assert(seq!['1'][0] != seq!['2'][0]);
}

proof fn lemma_name_end_at(s: Seq<char>, i: int, e: int)
    requires
        0 <= i <= e <= s.len(),
        forall|t: int| i <= t < e ==> is_name_char(#[trigger] s[t]),
        e == s.len() || !is_name_char(s[e]),
    ensures
        name_end(s, i) == e,
    decreases e - i,
{
    if i < e {
        lemma_name_end_at(s, i + 1, e);
    }
}

proof fn lemma_find_char_at(s: Seq<char>, i: int, e: int, c: char)
    requires
        0 <= i <= e < s.len(),
        forall|t: int| i <= t < e ==> #[trigger] s[t] != c,
        s[e] == c,
    ensures
        find_char(s, i, c) == e,
    decreases e - i,
{
    if i < e {
        lemma_find_char_at(s, i + 1, e, c);
    }
}

proof fn lemma_cmdsub_plain(s: Seq<char>, i: int, e: int, src: Seq<char>)
    requires
        0 <= i <= e < s.len(),
        forall|t: int| i <= t < e ==> #[trigger] s[t] != '(' && s[t] != ')',
        s[e] == ')',
    ensures
        cmdsub_scan(s, i, 1, src) == Ok::<(Seq<char>, int), Seq<char>>((src + s.subrange(i, e), e + 1)),
    decreases e - i,
{
    if i < e {
        lemma_cmdsub_plain(s, i + 1, e, src.push(s[i]));
        assert(src.push(s[i]) + s.subrange(i + 1, e) =~= src + s.subrange(i, e));
    } else {
        assert(src + s.subrange(i, e) =~= src);
    }
}

proof fn lemma_arith_plain(s: Seq<char>, i: int, e: int, src: Seq<char>)
    requires
        0 <= i <= e,
        e + 1 < s.len(),
        forall|t: int| i <= t < e ==> #[trigger] s[t] != '(' && s[t] != ')',
        s[e] == ')' && s[e + 1] == ')',
    ensures
        arith_scan(s, i, 0, src) == Ok::<(Seq<char>, int), Seq<char>>((src + s.subrange(i, e), e + 2)),
    decreases e - i,
{
    if i < e {
        lemma_arith_plain(s, i + 1, e, src.push(s[i]));
        assert(src.push(s[i]) + s.subrange(i + 1, e) =~= src + s.subrange(i, e));
    } else {
        assert(src + s.subrange(i, e) =~= src);
    }
}

/// What follows a `$`: `$NAME` and `${NAME}` name a variable, `$?`, `$$`,
/// `$#`, `$!`, `$@`, `$*` and `$0`..`$9` a special one; `$(CMD)` is a
/// command substitution and `$((EXPR))` an arithmetic expansion of the
/// text between the parentheses; a `$` before anything else stands for
/// itself.
pub proof fn dollar_forms(s: Seq<char>, i: int, e: int)
    requires
        0 <= i,
        i + 1 <= s.len(),
        s[i] == '$',
    ensures
        i + 1 < s.len() && is_name_start(s[i + 1]) && !is_special_param(s[i + 1]) && !is_digit(s[i + 1])
            && s[i + 1] != '(' && s[i + 1] != '{' && i + 1 < e <= s.len() && (forall|t: int|
            i + 1 <= t < e ==> is_name_char(#[trigger] s[t])) && (e == s.len() || !is_name_char(s[e]))
            ==> dollar_spec(s, i) == Ok::<(SpecWordPart, int), Seq<char>>(
            (SpecWordPart::Var(s.subrange(i + 1, e)), e),
        ),
        i + 1 < s.len() && s[i + 1] == '{' && i + 2 <= e < s.len() && s[e] == '}' && (forall|t: int|
            i + 2 <= t < e ==> #[trigger] s[t] != '}') ==> dollar_spec(s, i) == Ok::<(SpecWordPart, int), Seq<char>>(
            (SpecWordPart::Var(s.subrange(i + 2, e)), e + 1),
        ),
        i + 1 < s.len() && (is_special_param(s[i + 1]) || is_digit(s[i + 1])) ==> dollar_spec(s, i) == Ok::<
            (SpecWordPart, int),
            Seq<char>,
        >((SpecWordPart::Var(seq![s[i + 1]]), i + 2)),
        i + 2 < s.len() && s[i + 1] == '(' && s[i + 2] != '(' && i + 2 <= e < s.len() && s[e] == ')' && (forall|
            t: int,
        | i + 2 <= t < e ==> #[trigger] s[t] != '(' && s[t] != ')') ==> dollar_spec(s, i) == Ok::<
            (SpecWordPart, int),
            Seq<char>,
        >((SpecWordPart::CmdSub(s.subrange(i + 2, e)), e + 1)),
        i + 2 < s.len() && s[i + 1] == '(' && s[i + 2] == '(' && i + 3 <= e && e + 1 < s.len() && s[e] == ')'
            && s[e + 1] == ')' && (forall|t: int| i + 3 <= t < e ==> #[trigger] s[t] != '(' && s[t] != ')')
            ==> dollar_spec(s, i) == Ok::<(SpecWordPart, int), Seq<char>>(
            (SpecWordPart::Arith(s.subrange(i + 3, e)), e + 2),
        ),
        i + 1 == s.len() ==> dollar_spec(s, i) == Ok::<(SpecWordPart, int), Seq<char>>(
            (SpecWordPart::Literal("$"@), i + 1),
        ),
{
    if i + 1 < s.len() && is_name_start(s[i + 1]) && i + 1 < e <= s.len() && (forall|t: int|
        i + 1 <= t < e ==> is_name_char(#[trigger] s[t])) && (e == s.len() || !is_name_char(s[e])) {
        lemma_name_end_at(s, i + 1, e);
    }
    if i + 1 < s.len() && s[i + 1] == '{' && i + 2 <= e < s.len() && s[e] == '}' && (forall|t: int|
        i + 2 <= t < e ==> #[trigger] s[t] != '}') {
        lemma_find_char_at(s, i + 2, e, '}');
    }
    if i + 2 < s.len() && s[i + 1] == '(' && s[i + 2] != '(' && i + 2 <= e < s.len() && s[e] == ')' && (forall|
        t: int,
    | i + 2 <= t < e ==> #[trigger] s[t] != '(' && s[t] != ')') {
        lemma_cmdsub_plain(s, i + 2, e, Seq::empty());
        assert(Seq::<char>::empty() + s.subrange(i + 2, e) =~= s.subrange(i + 2, e));
    }
    if i + 2 < s.len() && s[i + 1] == '(' && s[i + 2] == '(' && i + 3 <= e && e + 1 < s.len() && s[e] == ')'
        && s[e + 1] == ')' && (forall|t: int| i + 3 <= t < e ==> #[trigger] s[t] != '(' && s[t] != ')') {
        lemma_arith_plain(s, i + 3, e, Seq::empty());
        assert(Seq::<char>::empty() + s.subrange(i + 3, e) =~= s.subrange(i + 3, e));
    }
}

/// Outside quotes, a single-quoted stretch is taken as it stands, up to
/// the next single quote, and a backslash takes the next character as it
/// stands.
pub proof fn quoting_in_words(s: Seq<char>, i: int, e: int, parts: SpecWord, lit: Seq<char>)
    requires
        0 <= i < s.len(),
    ensures
        s[i] == '\'' && i < e < s.len() && s[e] == '\'' && (forall|t: int| i < t < e ==> #[trigger] s[t] != '\'')
            ==> word_spec(s, i, parts, lit) == word_spec(s, e + 1, parts, lit + s.subrange(i + 1, e)),
        s[i] == '\\' && i + 1 < s.len() ==> word_spec(s, i, parts, lit) == word_spec(s, i + 2, parts, lit.push(s[i + 1])),
{
    if s[i] == '\'' && i < e < s.len() && s[e] == '\'' && (forall|t: int| i < t < e ==> #[trigger] s[t] != '\'') {
        lemma_find_char_at(s, i + 1, e, '\'');
    }
}

/// A character that stands for itself inside an unquoted word.
pub open spec fn is_plain_word_char(c: char) -> bool {
    !is_word_boundary_spec(c) && c != '\'' && c != '"' && c != '\\' && c != '$'
}

/// A word of plain characters that no operator or comment can start.
pub open spec fn is_plain_word(w: Seq<char>) -> bool {
    &&& w.len() > 0
    &&& w[0] != '#' && w[0] != '!'
    &&& forall|t: int| 0 <= t < w.len() ==> is_plain_word_char(#[trigger] w[t])
}

proof fn lemma_word_plain_run(s: Seq<char>, i: int, e: int, lit: Seq<char>)
    requires
        0 <= i <= e <= s.len(),
        forall|t: int| i <= t < e ==> is_plain_word_char(#[trigger] s[t]),
        e == s.len() || is_word_boundary_spec(s[e]),
    ensures
        word_spec(s, i, Seq::empty(), lit) == Ok::<(SpecWord, int), Seq<char>>(
            (finish_word(Seq::empty(), lit + s.subrange(i, e)), e),
        ),
    decreases e - i,
{
    if i < e {
        assert(is_plain_word_char(s[i]));
        lemma_word_plain_run(s, i + 1, e, lit.push(s[i]));
        assert(lit.push(s[i]) + s.subrange(i + 1, e) =~= lit + s.subrange(i, e));
    } else {
        assert(lit + s.subrange(i, e) =~= lit);
    }
}

proof fn lemma_digits_end_before(s: Seq<char>, i: int, e: int)
    requires
        0 <= i <= e < s.len(),
        !is_digit(s[e]),
    ensures
        i <= digits_end(s, i) <= e,
    decreases e - i,
{
    if i < e && is_digit(s[i]) {
        lemma_digits_end_before(s, i + 1, e);
    }
}

/// A plain word `w` at `j`, ending at `e` before a blank or the end, is
/// read as one word of literal text.
proof fn lemma_plain_word_token(s: Seq<char>, j: int, e: int, w: Seq<char>)
    requires
        is_plain_word(w),
        0 <= j,
        e == j + w.len(),
        e <= s.len(),
        s.subrange(j, e) == w,
        e == s.len() || s[e] == ' ',
    ensures
        operator_spec(s, j) is None,
        word_spec(s, j, Seq::empty(), Seq::empty()) == Ok::<(SpecWord, int), Seq<char>>(
            (seq![SpecWordPart::Literal(w)], e),
        ),
{
    assert forall|t: int| j <= t < e implies is_plain_word_char(#[trigger] s[t]) by {
        assert(s[t] == w[t - j]);
    }
    assert(s[j] == w[0]);
    if is_digit(s[j]) {
        if e < s.len() {
            lemma_digits_end_before(s, j, e);
            let k = digits_end(s, j);
            if k < e {
                assert(is_plain_word_char(s[k]));
            }
        } else {
            lemma_digits_end_before(s.push(' '), j, e);
            lemma_digits_end_same(s, j);
        }
    }
    lemma_word_plain_run(s, j, e, Seq::empty());
    assert(Seq::<char>::empty() + s.subrange(j, e) =~= w);
}

/// `digits_end` does not look past the end of the text.
proof fn lemma_digits_end_same(s: Seq<char>, i: int)
    requires
        0 <= i <= s.len(),
    ensures
        digits_end(s.push(' '), i) == digits_end(s, i),
        digits_end(s, i) <= s.len(),
    decreases s.len() - i,
{
    if i < s.len() {
        assert(s.push(' ')[i] == s[i]);
        lemma_digits_end_same(s, i + 1);
    } else {
        assert(s.push(' ')[i] == ' ');
    }
}

/// Two plain words with a blank between them are read as two words of
/// literal text.
pub proof fn words_split_at_blanks(a: Seq<char>, b: Seq<char>)
    requires
        is_plain_word(a),
        is_plain_word(b),
    ensures
        tokenize_spec(a + seq![' '] + b) == Ok::<Seq<SpecToken>, Seq<char>>(
            seq![
                SpecToken::Word(seq![SpecWordPart::Literal(a)]),
                SpecToken::Word(seq![SpecWordPart::Literal(b)]),
                SpecToken::Eof,
            ],
        ),
{
    let s = a + seq![' '] + b;
    let na = a.len() as int;
    let n = s.len() as int;
    let wa = seq![SpecWordPart::Literal(a)];
    let wb = seq![SpecWordPart::Literal(b)];
    assert(s.subrange(0, na) =~= a);
    assert(s.subrange(na + 1, n) =~= b);
    assert(s[na] == ' ');
    lemma_plain_word_token(s, 0, na, a);
    lemma_plain_word_token(s, na + 1, n, b);
    assert(s[0] == a[0] && s[na + 1] == b[0]);
    assert(is_plain_word_char(a[0]) && is_plain_word_char(b[0]));
    assert(skip_blanks(s, 0) == 0);
    assert(skip_space_comment(s, 0) == 0);
    assert(skip_blanks(s, na + 1) == na + 1);
    assert(skip_blanks(s, na) == na + 1);
    assert(skip_space_comment(s, na) == na + 1);
    assert(skip_blanks(s, n) == n);
    let none: Seq<SpecToken> = Seq::empty();
    let acc2 = none.push(SpecToken::Word(wa)).push(SpecToken::Word(wb));
    assert(tokens_from(s, n, acc2) == Ok::<Seq<SpecToken>, Seq<char>>(acc2.push(SpecToken::Eof)));
    assert(tokens_from(s, na, none.push(SpecToken::Word(wa))) == Ok::<Seq<SpecToken>, Seq<char>>(
        acc2.push(SpecToken::Eof),
    ));
    assert(acc2.push(SpecToken::Eof) =~= seq![SpecToken::Word(wa), SpecToken::Word(wb), SpecToken::Eof]);
}

} // verus!
