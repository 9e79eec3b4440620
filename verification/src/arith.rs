//! Arithmetic expansion `$(( ... ))`: integer expressions over `i64`.

use vstd::prelude::*;
use crate::strmap::{text_map, StrMap};
use crate::text::{
    all_digits, char_white_space, chars_of, concat_str, digits_end_spec, digits_value, is_digit, is_name_char,
    is_name_start, lemma_digits_value_nonneg, lemma_trim_unchanged,
    is_alphabetic, is_alphanumeric, is_whitespace, parse_i64, parse_i64_spec, string_from_chars, trim,
    trim_spec,
};

verus! {

broadcast use vstd::string::group_string_axioms;

/// How an evaluation fails: with a message, or with an integer overflow
/// (where Rust's checked arithmetic would panic).
pub enum ArithError {
    Msg(Seq<char>),
    /// An unexpected character (or the end of the text) where an operand should start.
    Unexpected(Option<char>),
    Overflow,
}

/// The message an evaluation error is reported with.
pub open spec fn arith_message(e: ArithError) -> Seq<char> {
    match e {
        ArithError::Msg(m) => m,
        ArithError::Unexpected(c) => "arith: unexpected token "@ + opt_char_debug(c),
        ArithError::Overflow => "arith: integer overflow"@,
    }
}

/// A value and the index after the text it came from.
pub type ArithStep = Result<(int, int), ArithError>;

/// The comparison operators, strongest first.
pub enum RelOp {
    Eq,
    Ne,
    Le,
    Ge,
    Lt,
    Gt,
}

pub open spec fn in_i64(v: int) -> bool {
    i64::MIN <= v <= i64::MAX
}

pub open spec fn abs(a: int) -> int {
    if a < 0 { -a } else { a }
}

/// Division that rounds toward zero, as Rust's `/` on integers.
pub open spec fn trunc_div(a: int, b: int) -> int {
    let q = abs(a) / abs(b);
    if (a < 0) != (b < 0) { -q } else { q }
}

/// The remainder that goes with `trunc_div`, as Rust's `%` on integers.
pub open spec fn trunc_rem(a: int, b: int) -> int {
    a - b * trunc_div(a, b)
}

/// The first index at or after `i` that does not hold white space.
pub open spec fn ws_end(s: Seq<char>, i: int) -> int
    decreases s.len() - i,
{
    if 0 <= i < s.len() && char_white_space(s[i]) {
        ws_end(s, i + 1)
    } else {
        i
    }
}

pub proof fn lemma_ws_end(s: Seq<char>, i: int)
    ensures
        ws_end(s, i) >= i,
        0 <= i <= s.len() ==> ws_end(s, i) <= s.len(),
    decreases s.len() - i,
{
    if 0 <= i < s.len() && char_white_space(s[i]) {
        lemma_ws_end(s, i + 1);
    }
}

/// The comparison operator at index `p`, and its length.
pub open spec fn rel_op_at(s: Seq<char>, p: int) -> Option<(RelOp, int)> {
    let two = |a: char, b: char| 0 <= p && p + 1 < s.len() && s[p] == a && s[p + 1] == b;
    if two('=', '=') {
        Some((RelOp::Eq, 2))
    } else if two('!', '=') {
        Some((RelOp::Ne, 2))
    } else if two('<', '=') {
        Some((RelOp::Le, 2))
    } else if two('>', '=') {
        Some((RelOp::Ge, 2))
    } else if 0 <= p < s.len() && s[p] == '<' {
        Some((RelOp::Lt, 1))
    } else if 0 <= p < s.len() && s[p] == '>' {
        Some((RelOp::Gt, 1))
    } else {
        None
    }
}

/// 1 when the comparison holds, 0 otherwise.
pub open spec fn compare(op: RelOp, a: int, b: int) -> int {
    let r = match op {
        RelOp::Eq => a == b,
        RelOp::Ne => a != b,
        RelOp::Le => a <= b,
        RelOp::Ge => a >= b,
        RelOp::Lt => a < b,
        RelOp::Gt => a > b,
    };
    if r { 1 } else { 0 }
}

/// The value of a variable in arithmetic: its text, trimmed, as an `i64`;
/// 0 when it is unset or not a number.
pub open spec fn var_value(vars: Map<Seq<char>, Seq<char>>, name: Seq<char>) -> int {
    if vars.contains_key(name) {
        match parse_i64_spec(trim_spec(vars[name])) {
            Some(v) => v,
            None => 0,
        }
    } else {
        0
    }
}

/// What `Debug` prints for a character (`'c'`, with escapes).
pub uninterp spec fn char_debug(c: char) -> Seq<char>;

/// What `Debug` prints for an optional character.
pub open spec fn opt_char_debug(c: Option<char>) -> Seq<char> {
    match c {
        Some(c) => "Some("@ + char_debug(c) + ")"@,
        None => "None"@,
    }
}

/// `rel := add (op add)*`
pub open spec fn rel_spec(s: Seq<char>, vars: Map<Seq<char>, Seq<char>>, pos: int) -> ArithStep
    decreases s.len() - pos, 9int,
{
    if pos < 0 || pos > s.len() {
        Err(ArithError::Msg(Seq::empty()))
    } else {
        match add_spec(s, vars, pos) {
            Err(e) => Err(e),
            Ok((v, p)) => if pos <= p <= s.len() { rel_rest(s, vars, p, v) } else { Err(ArithError::Msg(Seq::empty())) },
        }
    }
}

pub open spec fn rel_rest(s: Seq<char>, vars: Map<Seq<char>, Seq<char>>, p: int, v: int) -> ArithStep
    decreases s.len() - p, 8int,
{
    if p < 0 || p > s.len() {
        Err(ArithError::Msg(Seq::empty()))
    } else {
        let p2 = ws_end(s, p);
        match rel_op_at(s, p2) {
            None => Ok((v, p2)),
            Some((op, n)) => {
                proof {
                    lemma_ws_end(s, p);
                }
                match add_spec(s, vars, p2 + n) {
                    Err(e) => Err(e),
                    Ok((rhs, p4)) => if p < p4 <= s.len() {
                        rel_rest(s, vars, p4, compare(op, v, rhs))
                    } else {
                        Err(ArithError::Msg(Seq::empty()))
                    },
                }
            },
        }
    }
}

/// `add := mul (('+' | '-') mul)*`
pub open spec fn add_spec(s: Seq<char>, vars: Map<Seq<char>, Seq<char>>, pos: int) -> ArithStep
    decreases s.len() - pos, 7int,
{
    if pos < 0 || pos > s.len() {
        Err(ArithError::Msg(Seq::empty()))
    } else {
        match mul_spec(s, vars, pos) {
            Err(e) => Err(e),
            Ok((v, p)) => if pos <= p <= s.len() { add_rest(s, vars, p, v) } else { Err(ArithError::Msg(Seq::empty())) },
        }
    }
}

pub open spec fn add_rest(s: Seq<char>, vars: Map<Seq<char>, Seq<char>>, p: int, v: int) -> ArithStep
    decreases s.len() - p, 6int,
{
    if p < 0 || p > s.len() {
        Err(ArithError::Msg(Seq::empty()))
    } else {
        let p2 = ws_end(s, p);
        proof {
            lemma_ws_end(s, p);
        }
        if p2 < s.len() && (s[p2] == '+' || s[p2] == '-') {
            match mul_spec(s, vars, p2 + 1) {
                Err(e) => Err(e),
                Ok((rhs, p3)) => {
                    let r = if s[p2] == '+' { v + rhs } else { v - rhs };
                    if !in_i64(r) {
                        Err(ArithError::Overflow)
                    } else if p < p3 <= s.len() {
                        add_rest(s, vars, p3, r)
                    } else {
                        Err(ArithError::Msg(Seq::empty()))
                    }
                },
            }
        } else {
            Ok((v, p2))
        }
    }
}

/// `mul := unary (('*' | '/' | '%') unary)*`
pub open spec fn mul_spec(s: Seq<char>, vars: Map<Seq<char>, Seq<char>>, pos: int) -> ArithStep
    decreases s.len() - pos, 5int,
{
    if pos < 0 || pos > s.len() {
        Err(ArithError::Msg(Seq::empty()))
    } else {
        match unary_spec(s, vars, pos) {
            Err(e) => Err(e),
            Ok((v, p)) => if pos <= p <= s.len() { mul_rest(s, vars, p, v) } else { Err(ArithError::Msg(Seq::empty())) },
        }
    }
}

pub open spec fn mul_rest(s: Seq<char>, vars: Map<Seq<char>, Seq<char>>, p: int, v: int) -> ArithStep
    decreases s.len() - p, 4int,
{
    if p < 0 || p > s.len() {
        Err(ArithError::Msg(Seq::empty()))
    } else {
        let p2 = ws_end(s, p);
        proof {
            lemma_ws_end(s, p);
        }
        if p2 < s.len() && (s[p2] == '*' || s[p2] == '/' || s[p2] == '%') {
            match unary_spec(s, vars, p2 + 1) {
                Err(e) => Err(e),
                Ok((rhs, p3)) => {
                    let op = s[p2];
                    if op != '*' && rhs == 0 {
                        Err(ArithError::Msg("arith: division by zero"@))
                    } else {
                        let r = if op == '*' {
                            v * rhs
                        } else if op == '/' {
                            trunc_div(v, rhs)
                        } else {
                            trunc_rem(v, rhs)
                        };
                        // `i64::MIN % -1` overflows in Rust although its value is 0
                        if !in_i64(r) || (op == '%' && v == i64::MIN && rhs == -1) {
                            Err(ArithError::Overflow)
                        } else if p < p3 <= s.len() {
                            mul_rest(s, vars, p3, r)
                        } else {
                            Err(ArithError::Msg(Seq::empty()))
                        }
                    }
                },
            }
        } else {
            Ok((v, p2))
        }
    }
}

/// `unary := ('-' | '+' | '!') unary | primary`
pub open spec fn unary_spec(s: Seq<char>, vars: Map<Seq<char>, Seq<char>>, pos: int) -> ArithStep
    decreases s.len() - pos, 3int,
{
    if pos < 0 || pos > s.len() {
        Err(ArithError::Msg(Seq::empty()))
    } else {
        let p1 = ws_end(s, pos);
        proof {
            lemma_ws_end(s, pos);
        }
        if p1 < s.len() && (s[p1] == '-' || s[p1] == '+' || s[p1] == '!') {
            match unary_spec(s, vars, p1 + 1) {
                Err(e) => Err(e),
                Ok((v, p2)) => if s[p1] == '-' {
                    if in_i64(-v) { Ok((-v, p2)) } else { Err(ArithError::Overflow) }
                } else if s[p1] == '+' {
                    Ok((v, p2))
                } else {
                    Ok((if v == 0 { 1 } else { 0 }, p2))
                },
            }
        } else {
            primary_spec(s, vars, p1)
        }
    }
}

/// `primary := '(' rel ')' | digits | name`
pub open spec fn primary_spec(s: Seq<char>, vars: Map<Seq<char>, Seq<char>>, pos: int) -> ArithStep
    decreases s.len() - pos, 2int,
{
    if pos < 0 || pos > s.len() {
        Err(ArithError::Msg(Seq::empty()))
    } else {
        let p1 = ws_end(s, pos);
        proof {
            lemma_ws_end(s, pos);
        }
        if p1 < s.len() && s[p1] == '(' {
            match rel_spec(s, vars, p1 + 1) {
                Err(e) => Err(e),
                Ok((v, p2)) => {
                    let p3 = ws_end(s, p2);
                    if 0 <= p3 < s.len() && s[p3] == ')' {
                        Ok((v, p3 + 1))
                    } else {
                        Err(ArithError::Msg("arith: expected ')'"@))
                    }
                },
            }
        } else if p1 < s.len() && is_digit(s[p1]) {
            let e = digits_end_spec(s, p1);
            match parse_i64_spec(s.subrange(p1, e)) {
                Some(v) => Ok((v, e)),
                None => Err(ArithError::Msg("number too large to fit in target type"@)),
            }
        } else if p1 < s.len() && is_name_start(s[p1]) {
            let e = name_end_spec(s, p1);
            Ok((var_value(vars, s.subrange(p1, e)), e))
        } else {
            Err(ArithError::Unexpected(if p1 < s.len() { Some(s[p1]) } else { None }))
        }
    }
}

/// The end of a run of name characters starting at `i`.
pub open spec fn name_end_spec(s: Seq<char>, i: int) -> int
    decreases s.len() - i,
{
    if 0 <= i < s.len() && is_name_char(s[i]) {
        name_end_spec(s, i + 1)
    } else {
        i
    }
}

/// The value of an arithmetic expression, given the shell variables.
pub open spec fn arith_spec(s: Seq<char>, vars: Map<Seq<char>, Seq<char>>) -> Result<int, ArithError> {
    match rel_spec(s, vars, 0) {
        Err(e) => Err(e),
        Ok((v, p)) => if ws_end(s, p) != s.len() {
            Err(ArithError::Msg("arith: unexpected trailing input in '"@ + s + "'"@))
        } else {
            Ok(v)
        },
    }
}


/// Calls `<char as Debug>::fmt` (through `format!`). Claims that the text is
/// the name `char_debug` gives, which for printable ASCII other than the
/// quote and the backslash is the character between single quotes.
#[verifier::external_body]
fn char_debug_string(c: char) -> (r: String)
    ensures
        r@ == char_debug(c),
        (' ' <= c <= '~' && c != '\'' && c != '\\') ==> r@ == seq!['\'', c, '\''],
{
    format!("{:?}", c)
}

/// Why an evaluation step failed.
enum ArithFail {
    Msg(String),
    Unexpected(Option<char>),
    Overflow,
}

spec fn fail_view(f: ArithFail) -> ArithError {
    match f {
        ArithFail::Msg(m) => ArithError::Msg(m@),
        ArithFail::Unexpected(c) => ArithError::Unexpected(c),
        ArithFail::Overflow => ArithError::Overflow,
    }
}

spec fn step_view(r: Result<i64, ArithFail>, pos: int) -> ArithStep {
    match r {
        Ok(v) => Ok((v as int, pos)),
        Err(f) => Err(fail_view(f)),
    }
}

/// Division and remainder of Rust's integers, on values whose result fits.
fn div_rem(a: i64, b: i64, want_div: bool) -> (r: i128)
    requires
        b != 0,
    ensures
        r == if want_div { trunc_div(a as int, b as int) } else { trunc_rem(a as int, b as int) },
{
    let aa: u128 = if a < 0 { (0 - (a as i128)) as u128 } else { a as u128 };
    let bb: u128 = if b < 0 { (0 - (b as i128)) as u128 } else { b as u128 };
    let q: u128 = aa / bb;
    assert(q as int == abs(a as int) / abs(b as int));
    assert(q <= 0x8000_0000_0000_0000u128) by (nonlinear_arith)
        requires
            q == aa / bb,
            aa <= 0x8000_0000_0000_0000u128,
            bb >= 1,
    ;
    let qs: i128 = if (a < 0) != (b < 0) { 0 - (q as i128) } else { q as i128 };
    if want_div {
        qs
    } else {
        let bi: i128 = b as i128;
        assert(-0x4000_0000_0000_0000_0000_0000_0000_0000 <= bi * qs <= 0x4000_0000_0000_0000_0000_0000_0000_0000)
            by (nonlinear_arith)
            requires
                -0x8000_0000_0000_0000 <= bi <= 0x7fff_ffff_ffff_ffff,
                -0x8000_0000_0000_0000 <= qs <= 0x8000_0000_0000_0000,
        ;
        let prod: i128 = bi * qs;
        (a as i128) - prod
    }
}

struct ArithParser<'a> {
    chars: Vec<char>,
    pos: usize,
    vars: &'a StrMap<String>,
}

impl<'a> ArithParser<'a> {
    spec fn ok(&self) -> bool {
        self.pos <= self.chars@.len()
    }

    fn pair_at(&self, i: usize, a: char, b: char) -> (r: bool)
        requires
            i <= self.chars@.len(),
        ensures
            r == (i + 1 < self.chars@.len() && self.chars@[i as int] == a && self.chars@[i + 1] == b),
    {
        self.chars.len() - i >= 2 && self.chars[i] == a && self.chars[i + 1] == b
    }

    fn skip_ws(&mut self)
        requires
            old(self).ok(),
        ensures
            final(self).ok(),
            final(self).chars == old(self).chars,
            final(self).vars == old(self).vars,
            final(self).pos == ws_end(old(self).chars@, old(self).pos as int),
    {
        let ghost s = self.chars@;
        let ghost p0 = self.pos as int;
        while self.pos < self.chars.len() && is_whitespace(self.chars[self.pos])
            invariant
                self.ok(),
                self.chars == old(self).chars,
                self.vars == old(self).vars,
                s == self.chars@,
                ws_end(s, self.pos as int) == ws_end(s, p0),
            decreases self.chars@.len() - self.pos,
        {
            self.pos = self.pos + 1;
        }
    }

    #[verifier::loop_isolation(false)]
    fn parse_rel(&mut self) -> (r: Result<i64, ArithFail>)
        requires
            old(self).ok(),
        ensures
            final(self).ok(),
            final(self).chars == old(self).chars,
            final(self).vars == old(self).vars,
            final(self).pos >= old(self).pos,
            step_view(r, final(self).pos as int) == rel_spec(old(self).chars@, text_map(old(self).vars@), old(self).pos as int),
        decreases old(self).chars@.len() - old(self).pos, 9int,
    {
        let ghost s = self.chars@;
        let ghost vars = text_map(self.vars@);
        let ghost p0 = self.pos as int;
        let mut v = match self.parse_add() {
            Ok(v) => v,
            Err(e) => {
                return Err(e);
            },
        };
        loop
            invariant
                self.ok(),
                self.chars == old(self).chars,
                self.vars == old(self).vars,
                s == self.chars@,
                vars == text_map(self.vars@),
                p0 <= self.pos,
                rel_rest(s, vars, self.pos as int, v as int) == rel_spec(s, vars, p0),
            decreases self.chars@.len() - self.pos,
        {
            let ghost p = self.pos as int;
            self.skip_ws();
            proof {
                lemma_ws_end(s, p);
            }
            let n = self.chars.len();
            let i = self.pos;
            let op: u8 = if self.pair_at(i, '=', '=') {
                0
            } else if self.pair_at(i, '!', '=') {
                1
            } else if self.pair_at(i, '<', '=') {
                2
            } else if self.pair_at(i, '>', '=') {
                3
            } else if i < n && self.chars[i] == '<' {
                4
            } else if i < n && self.chars[i] == '>' {
                5
            } else {
                return Ok(v);
            };
            proof {
                lemma_ws_end(s, p);
            }
            self.pos = if op < 4 { i + 2 } else { i + 1 };
            let rhs = match self.parse_add() {
                Ok(x) => x,
                Err(e) => {
                    return Err(e);
                },
            };
            let b = if op == 0 {
                v == rhs
            } else if op == 1 {
                v != rhs
            } else if op == 2 {
                v <= rhs
            } else if op == 3 {
                v >= rhs
            } else if op == 4 {
                v < rhs
            } else {
                v > rhs
            };
            v = if b { 1 } else { 0 };
        }
    }

    #[verifier::loop_isolation(false)]
    fn parse_add(&mut self) -> (r: Result<i64, ArithFail>)
        requires
            old(self).ok(),
        ensures
            final(self).ok(),
            final(self).chars == old(self).chars,
            final(self).vars == old(self).vars,
            final(self).pos >= old(self).pos,
            r is Ok ==> final(self).pos > old(self).pos,
            step_view(r, final(self).pos as int) == add_spec(old(self).chars@, text_map(old(self).vars@), old(self).pos as int),
        decreases old(self).chars@.len() - old(self).pos, 7int,
    {
        let ghost s = self.chars@;
        let ghost vars = text_map(self.vars@);
        let ghost p0 = self.pos as int;
        let mut v = match self.parse_mul() {
            Ok(v) => v,
            Err(e) => {
                return Err(e);
            },
        };
        loop
            invariant
                self.ok(),
                self.chars == old(self).chars,
                self.vars == old(self).vars,
                s == self.chars@,
                vars == text_map(self.vars@),
                p0 < self.pos,
                add_rest(s, vars, self.pos as int, v as int) == add_spec(s, vars, p0),
            decreases self.chars@.len() - self.pos,
        {
            let ghost p = self.pos as int;
            self.skip_ws();
            proof {
                lemma_ws_end(s, p);
            }
            let i = self.pos;
            if !(i < self.chars.len() && (self.chars[i] == '+' || self.chars[i] == '-')) {
                return Ok(v);
            }
            let plus = self.chars[i] == '+';
            self.pos = i + 1;
            let rhs = match self.parse_mul() {
                Ok(x) => x,
                Err(e) => {
                    return Err(e);
                },
            };
            let r: i128 = if plus { (v as i128) + (rhs as i128) } else { (v as i128) - (rhs as i128) };
            if r < -0x8000_0000_0000_0000i128 || r > 0x7fff_ffff_ffff_ffffi128 {
                return Err(ArithFail::Overflow);
            }
            v = r as i64;
        }
    }

    #[verifier::loop_isolation(false)]
    fn parse_mul(&mut self) -> (r: Result<i64, ArithFail>)
        requires
            old(self).ok(),
        ensures
            final(self).ok(),
            final(self).chars == old(self).chars,
            final(self).vars == old(self).vars,
            final(self).pos >= old(self).pos,
            r is Ok ==> final(self).pos > old(self).pos,
            step_view(r, final(self).pos as int) == mul_spec(old(self).chars@, text_map(old(self).vars@), old(self).pos as int),
        decreases old(self).chars@.len() - old(self).pos, 5int,
    {
        let ghost s = self.chars@;
        let ghost vars = text_map(self.vars@);
        let ghost p0 = self.pos as int;
        let mut v = match self.parse_unary() {
            Ok(v) => v,
            Err(e) => {
                return Err(e);
            },
        };
        loop
            invariant
                self.ok(),
                self.chars == old(self).chars,
                self.vars == old(self).vars,
                s == self.chars@,
                vars == text_map(self.vars@),
                p0 < self.pos,
                mul_rest(s, vars, self.pos as int, v as int) == mul_spec(s, vars, p0),
            decreases self.chars@.len() - self.pos,
        {
            let ghost p = self.pos as int;
            self.skip_ws();
            proof {
                lemma_ws_end(s, p);
            }
            let i = self.pos;
            if !(i < self.chars.len() && (self.chars[i] == '*' || self.chars[i] == '/' || self.chars[i] == '%')) {
                return Ok(v);
            }
            let op = self.chars[i];
            self.pos = i + 1;
            let rhs = match self.parse_unary() {
                Ok(x) => x,
                Err(e) => {
                    return Err(e);
                },
            };
            if op != '*' && rhs == 0 {
                return Err(ArithFail::Msg("arith: division by zero".to_string()));
            }
            let r: i128 = if op == '*' {
                assert((v as int) * (rhs as int) <= 0x8000_0000_0000_0000 * 0x8000_0000_0000_0000) by (nonlinear_arith)
                    requires
                        -0x8000_0000_0000_0000 <= v <= 0x7fff_ffff_ffff_ffff,
                        -0x8000_0000_0000_0000 <= rhs <= 0x7fff_ffff_ffff_ffff,
                ;
                assert((v as int) * (rhs as int) >= -(0x8000_0000_0000_0000 * 0x8000_0000_0000_0000)) by (nonlinear_arith)
                    requires
                        -0x8000_0000_0000_0000 <= v <= 0x7fff_ffff_ffff_ffff,
                        -0x8000_0000_0000_0000 <= rhs <= 0x7fff_ffff_ffff_ffff,
                ;
                (v as i128) * (rhs as i128)
            } else {
                div_rem(v, rhs, op == '/')
            };
            if r < -0x8000_0000_0000_0000i128 || r > 0x7fff_ffff_ffff_ffffi128 || (op == '%' && v
                == -0x8000_0000_0000_0000i64 && rhs == -1) {
                return Err(ArithFail::Overflow);
            }
            v = r as i64;
        }
    }

    fn parse_unary(&mut self) -> (r: Result<i64, ArithFail>)
        requires
            old(self).ok(),
        ensures
            final(self).ok(),
            final(self).chars == old(self).chars,
            final(self).vars == old(self).vars,
            final(self).pos >= old(self).pos,
            r is Ok ==> final(self).pos > old(self).pos,
            step_view(r, final(self).pos as int) == unary_spec(old(self).chars@, text_map(old(self).vars@), old(self).pos as int),
        decreases old(self).chars@.len() - old(self).pos, 3int,
    {
        let ghost s = self.chars@;
        let ghost p0 = self.pos as int;
        self.skip_ws();
        proof {
            lemma_ws_end(s, p0);
        }
        let i = self.pos;
        if i < self.chars.len() && (self.chars[i] == '-' || self.chars[i] == '+' || self.chars[i] == '!') {
            let c = self.chars[i];
            self.pos = i + 1;
            let v = match self.parse_unary() {
                Ok(x) => x,
                Err(e) => {
                    return Err(e);
                },
            };
            if c == '-' {
                if v == -0x8000_0000_0000_0000i64 {
                    return Err(ArithFail::Overflow);
                }
                Ok(-v)
            } else if c == '+' {
                Ok(v)
            } else {
                Ok(if v == 0 { 1 } else { 0 })
            }
        } else {
            self.parse_primary()
        }
    }

    #[verifier::loop_isolation(false)]
    fn parse_primary(&mut self) -> (r: Result<i64, ArithFail>)
        requires
            old(self).ok(),
        ensures
            final(self).ok(),
            final(self).chars == old(self).chars,
            final(self).vars == old(self).vars,
            final(self).pos >= old(self).pos,
            r is Ok ==> final(self).pos > old(self).pos,
            step_view(r, final(self).pos as int) == primary_spec(old(self).chars@, text_map(old(self).vars@), old(self).pos as int),
        decreases old(self).chars@.len() - old(self).pos, 2int,
    {
        let ghost s = self.chars@;
        let ghost p0 = self.pos as int;
        self.skip_ws();
        proof {
            lemma_ws_end(s, p0);
        }
        let i = self.pos;
        let n = self.chars.len();
        if i < n && self.chars[i] == '(' {
            self.pos = i + 1;
            let v = match self.parse_rel() {
                Ok(x) => x,
                Err(e) => {
                    return Err(e);
                },
            };
            let ghost p2 = self.pos as int;
            self.skip_ws();
            proof {
                lemma_ws_end(s, p2);
            }
            if self.pos < n && self.chars[self.pos] == ')' {
                self.pos = self.pos + 1;
                Ok(v)
            } else {
                Err(ArithFail::Msg("arith: expected ')'".to_string()))
            }
        } else if i < n && '0' <= self.chars[i] && self.chars[i] <= '9' {
            let mut j = i;
            let mut digits: Vec<char> = Vec::new();
            while j < n && '0' <= self.chars[j] && self.chars[j] <= '9'
                invariant
                    i <= j <= n,
                    n == s.len(),
                    s == self.chars@,
                    digits_end_spec(s, j as int) == digits_end_spec(s, i as int),
                    digits@ == s.subrange(i as int, j as int),
                decreases n - j,
            {
                digits.push(self.chars[j]);
                j = j + 1;
                assert(digits@ =~= s.subrange(i as int, j as int));
            }
            self.pos = j;
            assert(self.pos > p0);
            match parse_i64(digits.as_slice()) {
                Some(v) => Ok(v),
                None => Err(ArithFail::Msg("number too large to fit in target type".to_string())),
            }
        } else if i < n && (is_alphabetic(self.chars[i]) || self.chars[i] == '_') {
            let mut j = i;
            let mut name: Vec<char> = Vec::new();
            while j < n && (is_alphanumeric(self.chars[j]) || self.chars[j] == '_')
                invariant
                    i <= j <= n,
                    n == s.len(),
                    s == self.chars@,
                    name_end_spec(s, j as int) == name_end_spec(s, i as int),
                    name@ == s.subrange(i as int, j as int),
                decreases n - j,
            {
                name.push(self.chars[j]);
                j = j + 1;
                assert(name@ =~= s.subrange(i as int, j as int));
            }
            self.pos = j;
            assert(self.pos > p0);
            let key = string_from_chars(name.as_slice());
            let v: i64 = match self.vars.get(key.as_str()) {
                Some(text) => {
                    let cs = chars_of(text.as_str());
                    let t = trim(cs.as_slice());
                    match parse_i64(t.as_slice()) {
                        Some(x) => x,
                        None => 0,
                    }
                },
                None => 0,
            };
            Ok(v)
        } else {
            Err(ArithFail::Unexpected(if i < n { Some(self.chars[i]) } else { None }))
        }
    }
}

/// The message of an unexpected character (or end of text).
fn unexpected_message(c: Option<char>) -> (r: String)
    ensures
        r@ == arith_message(ArithError::Unexpected(c)),
{
    let d = match c {
        Some(c) => {
            let inner = char_debug_string(c);
            let a = concat_str("Some(", inner.as_str());
            concat_str(a.as_str(), ")")
        },
        None => "None".to_string(),
    };
    concat_str("arith: unexpected token ", d.as_str())
}

/// Evaluates an arithmetic expression; `None` when a step overflows `i64`.
pub fn eval_checked(src: &str, vars: &StrMap<String>) -> (r: Option<Result<i64, String>>)
    ensures
        match r {
            None => arith_spec(src@, text_map(vars@)) == Err::<int, ArithError>(ArithError::Overflow),
            Some(Ok(v)) => arith_spec(src@, text_map(vars@)) == Ok::<int, ArithError>(v as int),
            Some(Err(m)) => arith_spec(src@, text_map(vars@)) matches Err(e) && !(e is Overflow) && m@ == arith_message(e),
        },
{
    let mut p = ArithParser { chars: chars_of(src), pos: 0, vars };
    let r = p.parse_rel();
    match r {
        Ok(v) => {
            p.skip_ws();
            if p.pos != p.chars.len() {
                let a = concat_str("arith: unexpected trailing input in '", src);
                Some(Err(concat_str(a.as_str(), "'")))
            } else {
                Some(Ok(v))
            }
        },
        Err(ArithFail::Msg(m)) => Some(Err(m)),
        Err(ArithFail::Unexpected(c)) => Some(Err(unexpected_message(c))),
        Err(ArithFail::Overflow) => None,
    }
}

/// Evaluates an arithmetic expression whose evaluation does not overflow.
pub fn eval(src: &str, vars: &StrMap<String>) -> (r: Result<i64, String>)
    requires
        arith_spec(src@, text_map(vars@)) != Err::<int, ArithError>(ArithError::Overflow),
    ensures
        match r {
            Ok(v) => arith_spec(src@, text_map(vars@)) == Ok::<int, ArithError>(v as int),
            Err(m) => arith_spec(src@, text_map(vars@)) matches Err(e) && m@ == arith_message(e),
        },
{
    match eval_checked(src, vars) {
        Some(r) => r,
        None => Err("arith: integer overflow".to_string()),
    }
}

// ----- laws of evaluation -----

/// A decimal literal that fits in `i64`: one or more ASCII digits.
pub open spec fn is_i64_literal(d: Seq<char>) -> bool {
    d.len() > 0 && all_digits(d) && digits_value(d) <= i64::MAX
}

/// The text `a OP b`, with one space on each side of the operator.
pub open spec fn spaced(a: Seq<char>, op: Seq<char>, b: Seq<char>) -> Seq<char> {
    a + seq![' '] + op + seq![' '] + b
}

proof fn lemma_digits_end_at(s: Seq<char>, i: int, k: int)
    requires
        0 <= i,
        0 <= k,
        i + k <= s.len(),
        forall|t: int| i <= t < i + k ==> is_digit(#[trigger] s[t]),
        i + k == s.len() || !is_digit(s[i + k]),
    ensures
        digits_end_spec(s, i) == i + k,
    decreases k,
{
    if k > 0 {
        lemma_digits_end_at(s, i + 1, k - 1);
    }
}

proof fn lemma_literal_value(d: Seq<char>)
    requires
        is_i64_literal(d),
    ensures
        parse_i64_spec(d) == Some(digits_value(d)),
        digits_value(d) >= 0,
{
    lemma_digits_value_nonneg(d);
    assert(is_digit(d[0]));
}

/// White space from `i` ends at `i` when `s[i]` is not white space.
proof fn lemma_ws_end_here(s: Seq<char>, i: int)
    requires
        0 <= i <= s.len(),
        i == s.len() || !char_white_space(s[i]),
    ensures
        ws_end(s, i) == i,
{
}

/// One space at `i` before a character that is not white space.
proof fn lemma_ws_end_one_space(s: Seq<char>, i: int)
    requires
        0 <= i,
        i + 1 < s.len(),
        s[i] == ' ',
        !char_white_space(s[i + 1]),
    ensures
        ws_end(s, i) == i + 1,
{
    lemma_ws_end_here(s, i + 1);
}

/// A decimal literal `d` at `i`, reached from `j` over white space, is an
/// operand with the literal's value.
proof fn lemma_operand(s: Seq<char>, vars: Map<Seq<char>, Seq<char>>, j: int, i: int, d: Seq<char>)
    requires
        0 <= j <= i,
        ws_end(s, j) == i,
        is_i64_literal(d),
        i + d.len() <= s.len(),
        s.subrange(i, i + d.len()) == d,
        i + d.len() == s.len() || !is_digit(s[i + d.len()]),
    ensures
        unary_spec(s, vars, j) == Ok::<(int, int), ArithError>((digits_value(d), i + d.len())),
{
    let k = d.len() as int;
    assert forall|t: int| i <= t < i + k implies is_digit(#[trigger] s[t]) by {
        assert(s[t] == s.subrange(i, i + k)[t - i]);
    }
    lemma_digits_end_at(s, i, k);
    lemma_literal_value(d);
    assert(is_digit(s[i]));
    lemma_ws_end_here(s, i);
    assert(primary_spec(s, vars, i) == Ok::<(int, int), ArithError>((digits_value(d), i + k)));
}

/// The layout of `a OP b`.
proof fn lemma_spaced_layout(a: Seq<char>, o: Seq<char>, b: Seq<char>)
    requires
        is_i64_literal(a),
        is_i64_literal(b),
    ensures
        ({
            let s = spaced(a, o, b);
            let na = a.len() as int;
            let m = o.len() as int;
            &&& s.len() == na + m + 2 + b.len()
            &&& s.subrange(0, na) == a
            &&& s[na] == ' '
            &&& forall|t: int| 0 <= t < m ==> s[na + 1 + t] == #[trigger] o[t]
            &&& s[na + 1 + m] == ' '
            &&& s.subrange(na + 2 + m, s.len() as int) == b
            &&& is_digit(s[0]) && !char_white_space(s[0])
            &&& is_digit(s[na + 2 + m]) && !char_white_space(s[na + 2 + m])
        }),
{
    let s = spaced(a, o, b);
    let na = a.len() as int;
    let m = o.len() as int;
    assert(s.subrange(0, na) =~= a);
    assert(s.subrange(na + 2 + m, s.len() as int) =~= b);
    assert(s[0] == a[0]);
    assert(s[na + 2 + m] == b[0]);
}

/// `a + b` and `a - b` on decimal literals.
proof fn lemma_additive(a: Seq<char>, c: char, b: Seq<char>, vars: Map<Seq<char>, Seq<char>>)
    requires
        is_i64_literal(a),
        is_i64_literal(b),
        c == '+' || c == '-',
    ensures
        ({
            let x = digits_value(a);
            let y = digits_value(b);
            let r = if c == '+' { x + y } else { x - y };
            arith_spec(spaced(a, seq![c], b), vars) == if in_i64(r) {
                Ok::<int, ArithError>(r)
            } else {
                Err(ArithError::Overflow)
            }
        }),
{
    let s = spaced(a, seq![c], b);
    let na = a.len() as int;
    let n = s.len() as int;
    let x = digits_value(a);
    let y = digits_value(b);
    let r = if c == '+' { x + y } else { x - y };
    lemma_spaced_layout(a, seq![c], b);
    assert(s[na + 1] == c);
    lemma_ws_end_here(s, 0);
    lemma_operand(s, vars, 0, 0, a);
    lemma_ws_end_one_space(s, na);
    assert(mul_spec(s, vars, 0) == Ok::<(int, int), ArithError>((x, na + 1)));
    lemma_ws_end_one_space(s, na + 2);
    lemma_operand(s, vars, na + 2, na + 3, b);
    lemma_ws_end_here(s, n);
    assert(mul_spec(s, vars, na + 2) == Ok::<(int, int), ArithError>((y, n)));
    lemma_ws_end_here(s, na + 1);
    lemma_literal_value(a);
    lemma_literal_value(b);
    if in_i64(r) {
        assert(add_rest(s, vars, n, r) == Ok::<(int, int), ArithError>((r, n)));
        assert(add_rest(s, vars, na + 1, x) == Ok::<(int, int), ArithError>((r, n)));
        assert(add_spec(s, vars, 0) == Ok::<(int, int), ArithError>((r, n)));
        assert(rel_rest(s, vars, n, r) == Ok::<(int, int), ArithError>((r, n)));
        assert(rel_spec(s, vars, 0) == Ok::<(int, int), ArithError>((r, n)));
    } else {
        assert(add_rest(s, vars, na + 1, x) == Err::<(int, int), ArithError>(ArithError::Overflow));
        assert(add_spec(s, vars, 0) == Err::<(int, int), ArithError>(ArithError::Overflow));
    }
}

/// On decimal literals `a` and `b`, `a + b` is their sum when it fits in
/// `i64` and an overflow otherwise, and `a - b` is the left operand minus
/// the right one.
pub proof fn additive_operators_on_literals(a: Seq<char>, b: Seq<char>, vars: Map<Seq<char>, Seq<char>>)
    requires
        is_i64_literal(a),
        is_i64_literal(b),
    ensures
        ({
            let x = digits_value(a);
            let y = digits_value(b);
            &&& x + y <= i64::MAX ==> arith_spec(spaced(a, seq!['+'], b), vars) == Ok::<int, ArithError>(x + y)
            &&& x + y > i64::MAX ==> arith_spec(spaced(a, seq!['+'], b), vars) == Err::<int, ArithError>(
                ArithError::Overflow,
            )
            &&& arith_spec(spaced(a, seq!['-'], b), vars) == Ok::<int, ArithError>(x - y)
        }),
{
    lemma_literal_value(a);
    lemma_literal_value(b);
    lemma_additive(a, '+', b, vars);
    lemma_additive(a, '-', b, vars);
}

/// `a * b`, `a / b` and `a % b` on decimal literals.
proof fn lemma_multiplicative(a: Seq<char>, c: char, b: Seq<char>, vars: Map<Seq<char>, Seq<char>>)
    requires
        is_i64_literal(a),
        is_i64_literal(b),
        c == '*' || c == '/' || c == '%',
    ensures
        ({
            let x = digits_value(a);
            let y = digits_value(b);
            let r = if c == '*' { x * y } else if c == '/' { trunc_div(x, y) } else { trunc_rem(x, y) };
            arith_spec(spaced(a, seq![c], b), vars) == if c != '*' && y == 0 {
                Err::<int, ArithError>(ArithError::Msg("arith: division by zero"@))
            } else if in_i64(r) {
                Ok::<int, ArithError>(r)
            } else {
                Err(ArithError::Overflow)
            }
        }),
{
    let s = spaced(a, seq![c], b);
    let na = a.len() as int;
    let n = s.len() as int;
    let x = digits_value(a);
    let y = digits_value(b);
    let r = if c == '*' { x * y } else if c == '/' { trunc_div(x, y) } else { trunc_rem(x, y) };
    lemma_spaced_layout(a, seq![c], b);
    assert(s[na + 1] == c);
    lemma_literal_value(a);
    lemma_literal_value(b);
    lemma_ws_end_here(s, 0);
    lemma_operand(s, vars, 0, 0, a);
    lemma_ws_end_one_space(s, na);
    lemma_ws_end_one_space(s, na + 2);
    lemma_operand(s, vars, na + 2, na + 3, b);
    lemma_ws_end_here(s, n);
    if c != '*' && y == 0 {
        assert(mul_rest(s, vars, na, x) == Err::<(int, int), ArithError>(
            ArithError::Msg("arith: division by zero"@),
        ));
        assert(mul_spec(s, vars, 0) == Err::<(int, int), ArithError>(ArithError::Msg("arith: division by zero"@)));
        assert(add_spec(s, vars, 0) == Err::<(int, int), ArithError>(ArithError::Msg("arith: division by zero"@)));
    } else if in_i64(r) {
        assert(mul_rest(s, vars, n, r) == Ok::<(int, int), ArithError>((r, n)));
        assert(mul_rest(s, vars, na, x) == Ok::<(int, int), ArithError>((r, n)));
        assert(mul_spec(s, vars, 0) == Ok::<(int, int), ArithError>((r, n)));
        assert(add_rest(s, vars, n, r) == Ok::<(int, int), ArithError>((r, n)));
        assert(add_spec(s, vars, 0) == Ok::<(int, int), ArithError>((r, n)));
        assert(rel_rest(s, vars, n, r) == Ok::<(int, int), ArithError>((r, n)));
        assert(rel_spec(s, vars, 0) == Ok::<(int, int), ArithError>((r, n)));
    } else {
        assert(mul_rest(s, vars, na, x) == Err::<(int, int), ArithError>(ArithError::Overflow));
        assert(mul_spec(s, vars, 0) == Err::<(int, int), ArithError>(ArithError::Overflow));
        assert(add_spec(s, vars, 0) == Err::<(int, int), ArithError>(ArithError::Overflow));
    }
}

/// Division and remainder of Rust's integers agree with the Euclidean ones
/// when neither operand is negative.
proof fn lemma_trunc_nonneg(x: int, y: int)
    requires
        0 <= x,
        0 < y,
    ensures
        trunc_div(x, y) == x / y,
        trunc_rem(x, y) == x % y,
        0 <= x / y <= x,
        0 <= x % y < y,
{
    assert(x == y * (x / y) + x % y && 0 <= x % y < y) by (nonlinear_arith)
        requires
            0 <= x,
            0 < y,
    ;
    assert(0 <= x / y <= x) by (nonlinear_arith)
        requires
            0 <= x,
            0 < y,
    ;
}

/// On decimal literals `a` and `b`: `a * b` is their product when it fits
/// in `i64` and an overflow otherwise; `a / b` is the quotient and `a % b`
/// the remainder of dividing `a` by `b`; both fail with "division by zero"
/// when `b` is zero.
pub proof fn multiplicative_operators_on_literals(a: Seq<char>, b: Seq<char>, vars: Map<Seq<char>, Seq<char>>)
    requires
        is_i64_literal(a),
        is_i64_literal(b),
    ensures
        ({
            let x = digits_value(a);
            let y = digits_value(b);
            let by_zero = Err::<int, ArithError>(ArithError::Msg("arith: division by zero"@));
            &&& x * y <= i64::MAX ==> arith_spec(spaced(a, seq!['*'], b), vars) == Ok::<int, ArithError>(x * y)
            &&& x * y > i64::MAX ==> arith_spec(spaced(a, seq!['*'], b), vars) == Err::<int, ArithError>(
                ArithError::Overflow,
            )
            &&& y != 0 ==> arith_spec(spaced(a, seq!['/'], b), vars) == Ok::<int, ArithError>(x / y)
            &&& y != 0 ==> arith_spec(spaced(a, seq!['%'], b), vars) == Ok::<int, ArithError>(x % y)
            &&& y == 0 ==> arith_spec(spaced(a, seq!['/'], b), vars) == by_zero
            &&& y == 0 ==> arith_spec(spaced(a, seq!['%'], b), vars) == by_zero
        }),
{
    let x = digits_value(a);
    let y = digits_value(b);
    lemma_literal_value(a);
    lemma_literal_value(b);
    assert(x * y >= 0) by (nonlinear_arith)
        requires
            x >= 0,
            y >= 0,
    ;
    if y != 0 {
        lemma_trunc_nonneg(x, y);
    }
    lemma_multiplicative(a, '*', b, vars);
    lemma_multiplicative(a, '/', b, vars);
    lemma_multiplicative(a, '%', b, vars);
}

/// `a OP b` on decimal literals for a comparison operator `OP`.
proof fn lemma_relational(a: Seq<char>, o: Seq<char>, b: Seq<char>, vars: Map<Seq<char>, Seq<char>>, op: RelOp)
    requires
        is_i64_literal(a),
        is_i64_literal(b),
        1 <= o.len() <= 2,
        o[0] == '<' || o[0] == '>' || o[0] == '=' || o[0] == '!',
        rel_op_at(spaced(a, o, b), a.len() + 1int) == Some((op, o.len() as int)),
    ensures
        arith_spec(spaced(a, o, b), vars) == Ok::<int, ArithError>(compare(op, digits_value(a), digits_value(b))),
{
    let s = spaced(a, o, b);
    let na = a.len() as int;
    let m = o.len() as int;
    let n = s.len() as int;
    let x = digits_value(a);
    let y = digits_value(b);
    let v = compare(op, x, y);
    lemma_spaced_layout(a, o, b);
    assert(s[na + 1] == o[0]);
    lemma_ws_end_here(s, 0);
    lemma_operand(s, vars, 0, 0, a);
    lemma_ws_end_one_space(s, na);
    lemma_ws_end_here(s, na + 1);
    assert(mul_spec(s, vars, 0) == Ok::<(int, int), ArithError>((x, na + 1)));
    assert(add_spec(s, vars, 0) == Ok::<(int, int), ArithError>((x, na + 1)));
    lemma_ws_end_one_space(s, na + 1 + m);
    lemma_operand(s, vars, na + 1 + m, na + 2 + m, b);
    lemma_ws_end_here(s, n);
    assert(mul_spec(s, vars, na + 1 + m) == Ok::<(int, int), ArithError>((y, n)));
    assert(add_spec(s, vars, na + 1 + m) == Ok::<(int, int), ArithError>((y, n)));
    assert(rel_rest(s, vars, n, v) == Ok::<(int, int), ArithError>((v, n)));
    assert(rel_rest(s, vars, na + 1, x) == Ok::<(int, int), ArithError>((v, n)));
    assert(rel_spec(s, vars, 0) == Ok::<(int, int), ArithError>((v, n)));
}

/// Each comparison operator in `a OP b` is read as itself.
proof fn lemma_comparison_operators_found(a: Seq<char>, b: Seq<char>)
    requires
        is_i64_literal(a),
        is_i64_literal(b),
    ensures
        rel_op_at(spaced(a, seq!['<'], b), a.len() + 1int) == Some((RelOp::Lt, 1int)),
        rel_op_at(spaced(a, seq!['>'], b), a.len() + 1int) == Some((RelOp::Gt, 1int)),
        rel_op_at(spaced(a, seq!['<', '='], b), a.len() + 1int) == Some((RelOp::Le, 2int)),
        rel_op_at(spaced(a, seq!['>', '='], b), a.len() + 1int) == Some((RelOp::Ge, 2int)),
        rel_op_at(spaced(a, seq!['=', '='], b), a.len() + 1int) == Some((RelOp::Eq, 2int)),
        rel_op_at(spaced(a, seq!['!', '='], b), a.len() + 1int) == Some((RelOp::Ne, 2int)),
{
    let na = a.len() as int;
    assert(spaced(a, seq!['<'], b)[na + 1] == '<' && spaced(a, seq!['<'], b)[na + 2] == ' ');
    assert(spaced(a, seq!['>'], b)[na + 1] == '>' && spaced(a, seq!['>'], b)[na + 2] == ' ');
    assert(spaced(a, seq!['<', '='], b)[na + 1] == '<' && spaced(a, seq!['<', '='], b)[na + 2] == '=');
    assert(spaced(a, seq!['>', '='], b)[na + 1] == '>' && spaced(a, seq!['>', '='], b)[na + 2] == '=');
    assert(spaced(a, seq!['=', '='], b)[na + 1] == '=' && spaced(a, seq!['=', '='], b)[na + 2] == '=');
    assert(spaced(a, seq!['!', '='], b)[na + 1] == '!' && spaced(a, seq!['!', '='], b)[na + 2] == '=');
}

/// On decimal literals `a` and `b`, the ordering operators give 1 when the
/// comparison of the two values holds and 0 when it does not.
pub proof fn ordering_operators_on_literals(a: Seq<char>, b: Seq<char>, vars: Map<Seq<char>, Seq<char>>)
    requires
        is_i64_literal(a),
        is_i64_literal(b),
    ensures
        ({
            let x = digits_value(a);
            let y = digits_value(b);
            let one_if = |c: bool| Ok::<int, ArithError>(if c { 1 } else { 0 });
            &&& arith_spec(spaced(a, seq!['<'], b), vars) == one_if(x < y)
            &&& arith_spec(spaced(a, seq!['>'], b), vars) == one_if(x > y)
            &&& arith_spec(spaced(a, seq!['<', '='], b), vars) == one_if(x <= y)
            &&& arith_spec(spaced(a, seq!['>', '='], b), vars) == one_if(x >= y)
        }),
{
    lemma_comparison_operators_found(a, b);
    lemma_relational(a, seq!['<'], b, vars, RelOp::Lt);
    lemma_relational(a, seq!['>'], b, vars, RelOp::Gt);
    lemma_relational(a, seq!['<', '='], b, vars, RelOp::Le);
    lemma_relational(a, seq!['>', '='], b, vars, RelOp::Ge);
}

/// On decimal literals `a` and `b`, `a == b` gives 1 when the two values
/// are equal and 0 otherwise, and `a != b` the other way round.
pub proof fn equality_operators_on_literals(a: Seq<char>, b: Seq<char>, vars: Map<Seq<char>, Seq<char>>)
    requires
        is_i64_literal(a),
        is_i64_literal(b),
    ensures
        ({
            let x = digits_value(a);
            let y = digits_value(b);
            &&& arith_spec(spaced(a, seq!['=', '='], b), vars) == Ok::<int, ArithError>(if x == y { 1 } else { 0 })
            &&& arith_spec(spaced(a, seq!['!', '='], b), vars) == Ok::<int, ArithError>(if x != y { 1 } else { 0 })
        }),
{
    lemma_comparison_operators_found(a, b);
    lemma_relational(a, seq!['=', '='], b, vars, RelOp::Eq);
    lemma_relational(a, seq!['!', '='], b, vars, RelOp::Ne);
}

/// On a decimal literal `a`, `-a` is the negated value.
pub proof fn unary_minus_on_literal(a: Seq<char>, vars: Map<Seq<char>, Seq<char>>)
    requires
        is_i64_literal(a),
    ensures
        arith_spec(seq!['-'] + a, vars) == Ok::<int, ArithError>(-digits_value(a)),
{
    let s = seq!['-'] + a;
    let n = s.len() as int;
    let x = digits_value(a);
    lemma_literal_value(a);
    assert(s.subrange(1, n) =~= a);
    assert(s[1] == a[0]);
    lemma_ws_end_here(s, 1);
    lemma_operand(s, vars, 1, 1, a);
    lemma_ws_end_here(s, 0);
    assert(unary_spec(s, vars, 0) == Ok::<(int, int), ArithError>((-x, n)));
    lemma_ws_end_here(s, n);
    assert(mul_spec(s, vars, 0) == Ok::<(int, int), ArithError>((-x, n)));
    assert(add_spec(s, vars, 0) == Ok::<(int, int), ArithError>((-x, n)));
    assert(rel_spec(s, vars, 0) == Ok::<(int, int), ArithError>((-x, n)));
}

/// On a decimal literal `a`, `+a` is its value, `!a` is 1 when the value
/// is 0 and 0 otherwise, and `(a)` is its value.
pub proof fn unary_and_parentheses_on_literal(a: Seq<char>, vars: Map<Seq<char>, Seq<char>>)
    requires
        is_i64_literal(a),
    ensures
        arith_spec(seq!['+'] + a, vars) == Ok::<int, ArithError>(digits_value(a)),
        arith_spec(seq!['!'] + a, vars) == Ok::<int, ArithError>(if digits_value(a) == 0 { 1 } else { 0 }),
        arith_spec(seq!['('] + a + seq![')'], vars) == Ok::<int, ArithError>(digits_value(a)),
{
    lemma_literal_value(a);
    lemma_prefixed_literal(a, '+', vars);
    lemma_prefixed_literal(a, '!', vars);
    lemma_parenthesized_literal(a, vars);
}

/// `c a` for a unary operator `c` that is `+` or `!`.
proof fn lemma_prefixed_literal(a: Seq<char>, c: char, vars: Map<Seq<char>, Seq<char>>)
    requires
        is_i64_literal(a),
        c == '+' || c == '!',
    ensures
        arith_spec(seq![c] + a, vars) == Ok::<int, ArithError>(
            if c == '+' { digits_value(a) } else if digits_value(a) == 0 { 1 } else { 0 },
        ),
{
    let s = seq![c] + a;
    let n = s.len() as int;
    let x = digits_value(a);
    let r = if c == '+' { x } else if x == 0 { 1int } else { 0 };
    assert(s.subrange(1, n) =~= a);
    assert(s[1] == a[0]);
    lemma_ws_end_here(s, 1);
    lemma_operand(s, vars, 1, 1, a);
    lemma_ws_end_here(s, 0);
    assert(unary_spec(s, vars, 0) == Ok::<(int, int), ArithError>((r, n)));
    lemma_ws_end_here(s, n);
    assert(mul_spec(s, vars, 0) == Ok::<(int, int), ArithError>((r, n)));
    assert(add_spec(s, vars, 0) == Ok::<(int, int), ArithError>((r, n)));
    assert(rel_spec(s, vars, 0) == Ok::<(int, int), ArithError>((r, n)));
}

/// `(a)` for a decimal literal `a`.
proof fn lemma_parenthesized_literal(a: Seq<char>, vars: Map<Seq<char>, Seq<char>>)
    requires
        is_i64_literal(a),
    ensures
        arith_spec(seq!['('] + a + seq![')'], vars) == Ok::<int, ArithError>(digits_value(a)),
{
    let s = seq!['('] + a + seq![')'];
    let na = a.len() as int;
    let n = s.len() as int;
    let x = digits_value(a);
    assert(s.subrange(1, na + 1) =~= a);
    assert(s[1] == a[0]);
    assert(s[na + 1] == ')');
    lemma_ws_end_here(s, 1);
    lemma_operand(s, vars, 1, 1, a);
    lemma_ws_end_here(s, na + 1);
    assert(mul_spec(s, vars, 1) == Ok::<(int, int), ArithError>((x, na + 1)));
    assert(add_spec(s, vars, 1) == Ok::<(int, int), ArithError>((x, na + 1)));
    assert(rel_spec(s, vars, 1) == Ok::<(int, int), ArithError>((x, na + 1)));
    lemma_ws_end_here(s, 0);
    assert(primary_spec(s, vars, 0) == Ok::<(int, int), ArithError>((x, n)));
    assert(unary_spec(s, vars, 0) == Ok::<(int, int), ArithError>((x, n)));
    lemma_ws_end_here(s, n);
    assert(mul_spec(s, vars, 0) == Ok::<(int, int), ArithError>((x, n)));
    assert(add_spec(s, vars, 0) == Ok::<(int, int), ArithError>((x, n)));
    assert(rel_spec(s, vars, 0) == Ok::<(int, int), ArithError>((x, n)));
}

/// The layout of `a OP1 b OP2 c`.
proof fn lemma_spaced3_layout(a: Seq<char>, o1: char, b: Seq<char>, o2: char, c: Seq<char>)
    requires
        is_i64_literal(a),
        is_i64_literal(b),
        is_i64_literal(c),
    ensures
        ({
            let s = spaced(spaced(a, seq![o1], b), seq![o2], c);
            let na = a.len() as int;
            let e = na + 3 + b.len();
            &&& s.len() == e + 3 + c.len()
            &&& s.subrange(0, na) == a
            &&& s[na] == ' ' && s[na + 1] == o1 && s[na + 2] == ' '
            &&& s.subrange(na + 3, e) == b
            &&& s[e] == ' ' && s[e + 1] == o2 && s[e + 2] == ' '
            &&& s.subrange(e + 3, s.len() as int) == c
            &&& is_digit(s[0]) && !char_white_space(s[0])
            &&& is_digit(s[na + 3]) && !char_white_space(s[na + 3])
            &&& is_digit(s[e + 3]) && !char_white_space(s[e + 3])
        }),
{
    let s = spaced(spaced(a, seq![o1], b), seq![o2], c);
    let na = a.len() as int;
    let e = na + 3 + b.len();
    assert(s.subrange(0, na) =~= a);
    assert(s.subrange(na + 3, e) =~= b);
    assert(s.subrange(e + 3, s.len() as int) =~= c);
    assert(s[0] == a[0]);
    assert(s[na + 3] == b[0]);
    assert(s[e + 3] == c[0]);
}

/// Multiplication binds more tightly than addition: on decimal literals,
/// `a + b * c` is `a` plus the product of `b` and `c`, when the values fit
/// in `i64`.
pub proof fn product_binds_before_sum(a: Seq<char>, b: Seq<char>, c: Seq<char>, vars: Map<Seq<char>, Seq<char>>)
    requires
        is_i64_literal(a),
        is_i64_literal(b),
        is_i64_literal(c),
        digits_value(b) * digits_value(c) <= i64::MAX,
        digits_value(a) + digits_value(b) * digits_value(c) <= i64::MAX,
    ensures
        arith_spec(spaced(spaced(a, seq!['+'], b), seq!['*'], c), vars) == Ok::<int, ArithError>(
            digits_value(a) + digits_value(b) * digits_value(c),
        ),
{
    let s = spaced(spaced(a, seq!['+'], b), seq!['*'], c);
    let na = a.len() as int;
    let e = na + 3 + b.len();
    let n = s.len() as int;
    let x = digits_value(a);
    let y = digits_value(b);
    let z = digits_value(c);
    let r = x + y * z;
    lemma_spaced3_layout(a, '+', b, '*', c);
    lemma_literal_value(a);
    lemma_literal_value(b);
    lemma_literal_value(c);
    assert(y * z >= 0) by (nonlinear_arith)
        requires
            y >= 0,
            z >= 0,
    ;
    lemma_ws_end_here(s, 0);
    lemma_operand(s, vars, 0, 0, a);
    lemma_ws_end_one_space(s, na);
    assert(mul_spec(s, vars, 0) == Ok::<(int, int), ArithError>((x, na + 1)));
    lemma_ws_end_here(s, na + 1);
    lemma_ws_end_one_space(s, na + 2);
    lemma_operand(s, vars, na + 2, na + 3, b);
    lemma_ws_end_one_space(s, e);
    lemma_ws_end_one_space(s, e + 2);
    lemma_operand(s, vars, e + 2, e + 3, c);
    lemma_ws_end_here(s, n);
    assert(mul_rest(s, vars, n, y * z) == Ok::<(int, int), ArithError>((y * z, n)));
    assert(mul_rest(s, vars, e, y) == Ok::<(int, int), ArithError>((y * z, n)));
    assert(mul_spec(s, vars, na + 2) == Ok::<(int, int), ArithError>((y * z, n)));
    assert(add_rest(s, vars, n, r) == Ok::<(int, int), ArithError>((r, n)));
    assert(add_rest(s, vars, na + 1, x) == Ok::<(int, int), ArithError>((r, n)));
    assert(add_spec(s, vars, 0) == Ok::<(int, int), ArithError>((r, n)));
    assert(rel_spec(s, vars, 0) == Ok::<(int, int), ArithError>((r, n)));
}

/// Subtraction groups to the left: on decimal literals, `a - b - c` is
/// `a` minus `b`, then minus `c`, when the value fits in `i64`.
pub proof fn subtraction_groups_left(a: Seq<char>, b: Seq<char>, c: Seq<char>, vars: Map<Seq<char>, Seq<char>>)
    requires
        is_i64_literal(a),
        is_i64_literal(b),
        is_i64_literal(c),
        digits_value(a) - digits_value(b) - digits_value(c) >= i64::MIN,
    ensures
        arith_spec(spaced(spaced(a, seq!['-'], b), seq!['-'], c), vars) == Ok::<int, ArithError>(
            (digits_value(a) - digits_value(b)) - digits_value(c),
        ),
{
    let s = spaced(spaced(a, seq!['-'], b), seq!['-'], c);
    let na = a.len() as int;
    let e = na + 3 + b.len();
    let n = s.len() as int;
    let x = digits_value(a);
    let y = digits_value(b);
    let z = digits_value(c);
    lemma_spaced3_layout(a, '-', b, '-', c);
    lemma_literal_value(a);
    lemma_literal_value(b);
    lemma_literal_value(c);
    lemma_ws_end_here(s, 0);
    lemma_operand(s, vars, 0, 0, a);
    lemma_ws_end_one_space(s, na);
    assert(mul_spec(s, vars, 0) == Ok::<(int, int), ArithError>((x, na + 1)));
    lemma_ws_end_here(s, na + 1);
    lemma_ws_end_one_space(s, na + 2);
    lemma_operand(s, vars, na + 2, na + 3, b);
    lemma_ws_end_one_space(s, e);
    assert(mul_spec(s, vars, na + 2) == Ok::<(int, int), ArithError>((y, e + 1)));
    lemma_ws_end_here(s, e + 1);
    lemma_ws_end_one_space(s, e + 2);
    lemma_operand(s, vars, e + 2, e + 3, c);
    lemma_ws_end_here(s, n);
    assert(mul_spec(s, vars, e + 2) == Ok::<(int, int), ArithError>((z, n)));
    assert(add_rest(s, vars, n, x - y - z) == Ok::<(int, int), ArithError>((x - y - z, n)));
    assert(add_rest(s, vars, e + 1, x - y) == Ok::<(int, int), ArithError>((x - y - z, n)));
    assert(add_rest(s, vars, na + 1, x) == Ok::<(int, int), ArithError>((x - y - z, n)));
    assert(add_spec(s, vars, 0) == Ok::<(int, int), ArithError>((x - y - z, n)));
    assert(rel_spec(s, vars, 0) == Ok::<(int, int), ArithError>((x - y - z, n)));
}

/// A variable name as it stands in an expression: a name that starts with
/// a name-start character other than a digit or an operator, and holds no
/// white space.
pub open spec fn is_plain_name(n: Seq<char>) -> bool {
    &&& n.len() > 0
    &&& is_name_start(n[0])
    &&& !is_digit(n[0]) && n[0] != '(' && n[0] != '-' && n[0] != '+' && n[0] != '!'
    &&& forall|t: int| 0 <= t < n.len() ==> is_name_char(#[trigger] n[t]) && !char_white_space(n[t])
}

proof fn lemma_name_end_at(s: Seq<char>, i: int)
    requires
        0 <= i <= s.len(),
        forall|t: int| i <= t < s.len() ==> is_name_char(#[trigger] s[t]),
    ensures
        name_end_spec(s, i) == s.len(),
    decreases s.len() - i,
{
    if i < s.len() {
        lemma_name_end_at(s, i + 1);
    }
}

/// A variable name on its own is the variable's value: 0 when it is
/// unset, the number it holds when it holds a decimal literal.
pub proof fn variable_in_expression(n: Seq<char>, vars: Map<Seq<char>, Seq<char>>)
    requires
        is_plain_name(n),
    ensures
        arith_spec(n, vars) == Ok::<int, ArithError>(var_value(vars, n)),
        !vars.contains_key(n) ==> arith_spec(n, vars) == Ok::<int, ArithError>(0),
        vars.contains_key(n) && is_i64_literal(vars[n]) ==> arith_spec(n, vars) == Ok::<int, ArithError>(
            digits_value(vars[n]),
        ),
{
    let len = n.len() as int;
    assert(n[0] == n[0]);
    lemma_name_end_at(n, 0);
    assert(n.subrange(0, len) =~= n);
    lemma_ws_end_here(n, 0);
    assert(primary_spec(n, vars, 0) == Ok::<(int, int), ArithError>((var_value(vars, n), len)));
    assert(unary_spec(n, vars, 0) == Ok::<(int, int), ArithError>((var_value(vars, n), len)));
    lemma_ws_end_here(n, len);
    assert(mul_spec(n, vars, 0) == Ok::<(int, int), ArithError>((var_value(vars, n), len)));
    assert(add_spec(n, vars, 0) == Ok::<(int, int), ArithError>((var_value(vars, n), len)));
    assert(rel_spec(n, vars, 0) == Ok::<(int, int), ArithError>((var_value(vars, n), len)));
    if vars.contains_key(n) && is_i64_literal(vars[n]) {
        let d = vars[n];
        assert(is_digit(d[0]) && is_digit(d.last()));
        lemma_trim_unchanged(d);
        lemma_literal_value(d);
    }
}

} // verus!
