//! The `test` builtin: its expression language over the arguments. File
//! tests ask the file system, so evaluation hands each one out as a probe
//! and goes on once its answer is known.

use vstd::prelude::*;
use crate::builtins::texts;
use crate::text::{
    char_white_space, chars_of, concat_str, is_digit, lemma_trim_unchanged, parse_i64, parse_i64_spec, str_eq, trim,
    trim_spec,
};

verus! {

broadcast use vstd::string::group_string_axioms;

/// The file tests of `test`.
#[derive(Clone, Copy, Debug, PartialEq, Eq, Structural)]
pub enum FileTest {
    /// `-e`: the path exists.
    Exists,
    /// `-f`: a regular file.
    IsFile,
    /// `-d`: a directory.
    IsDir,
    /// `-r`: readable (taken as: exists).
    Readable,
    /// `-w`: writable (taken as: exists).
    Writable,
    /// `-x`: executable (taken as: exists).
    Executable,
    /// `-s`: a file that is not empty.
    NonEmpty,
    /// `-L`: a symbolic link.
    IsSymlink,
}

/// The file test an operator names.
pub open spec fn file_op(s: Seq<char>) -> Option<FileTest> {
    if s == "-e"@ {
        Some(FileTest::Exists)
    } else if s == "-f"@ {
        Some(FileTest::IsFile)
    } else if s == "-d"@ {
        Some(FileTest::IsDir)
    } else if s == "-r"@ {
        Some(FileTest::Readable)
    } else if s == "-w"@ {
        Some(FileTest::Writable)
    } else if s == "-x"@ {
        Some(FileTest::Executable)
    } else if s == "-s"@ {
        Some(FileTest::NonEmpty)
    } else if s == "-L"@ {
        Some(FileTest::IsSymlink)
    } else {
        None
    }
}

/// The integer comparisons.
#[derive(Clone, Copy, Debug, PartialEq, Eq, Structural)]
pub enum IntTest {
    Eq,
    Ne,
    Lt,
    Le,
    Gt,
    Ge,
}

/// The integer comparison an operator names.
pub open spec fn int_op(s: Seq<char>) -> Option<IntTest> {
    if s == "-eq"@ {
        Some(IntTest::Eq)
    } else if s == "-ne"@ {
        Some(IntTest::Ne)
    } else if s == "-lt"@ {
        Some(IntTest::Lt)
    } else if s == "-le"@ {
        Some(IntTest::Le)
    } else if s == "-gt"@ {
        Some(IntTest::Gt)
    } else if s == "-ge"@ {
        Some(IntTest::Ge)
    } else {
        None
    }
}

pub open spec fn int_holds(op: IntTest, a: int, b: int) -> bool {
    match op {
        IntTest::Eq => a == b,
        IntTest::Ne => a != b,
        IntTest::Lt => a < b,
        IntTest::Le => a <= b,
        IntTest::Gt => a > b,
        IntTest::Ge => a >= b,
    }
}

/// Where evaluation of part of an expression got to.
pub enum Outcome {
    /// The value, the index of the next argument, and how many file tests
    /// were answered.
    Value(bool, int, int),
    /// The expression is malformed: the message.
    Fail(Seq<char>),
    /// The answer of this file test is needed next.
    Probe(FileTest, Seq<char>),
}

pub open spec fn end_msg() -> Seq<char> {
    "unexpected end of expression"@
}

pub open spec fn int_msg(s: Seq<char>) -> Seq<char> {
    "integer expected: '"@ + s + "'"@
}

/// The argument at `i` as a number, as `test` reads it.
pub open spec fn test_int(s: Seq<char>) -> Option<int> {
    parse_i64_spec(trim_spec(s))
}

/// `EXPR -o EXPR ...`
pub open spec fn or_spec(a: Seq<Seq<char>>, pos: int, ans: Seq<bool>, k: int) -> Outcome
    decreases a.len() - pos, 4int,
{
    match and_spec(a, pos, ans, k) {
        Outcome::Value(v, p, k2) => if pos < p <= a.len() {
            or_rest(a, v, p, ans, k2)
        } else {
            Outcome::Value(v, p, k2)
        },
        other => other,
    }
}

/// The rest of an `-o` chain, after a value `v`, at `pos`.
pub open spec fn or_rest(a: Seq<Seq<char>>, v: bool, pos: int, ans: Seq<bool>, k: int) -> Outcome
    decreases a.len() - pos, 5int,
{
    if 0 <= pos < a.len() && a[pos] == "-o"@ {
        match and_spec(a, pos + 1, ans, k) {
            Outcome::Value(w, p, k2) => if pos + 1 < p <= a.len() {
                or_rest(a, v || w, p, ans, k2)
            } else {
                Outcome::Value(v || w, p, k2)
            },
            other => other,
        }
    } else {
        Outcome::Value(v, pos, k)
    }
}

/// `EXPR -a EXPR ...`
pub open spec fn and_spec(a: Seq<Seq<char>>, pos: int, ans: Seq<bool>, k: int) -> Outcome
    decreases a.len() - pos, 2int,
{
    match not_spec(a, pos, ans, k) {
        Outcome::Value(v, p, k2) => if pos < p <= a.len() {
            and_rest(a, v, p, ans, k2)
        } else {
            Outcome::Value(v, p, k2)
        },
        other => other,
    }
}

/// The rest of an `-a` chain, after a value `v`, at `pos`.
pub open spec fn and_rest(a: Seq<Seq<char>>, v: bool, pos: int, ans: Seq<bool>, k: int) -> Outcome
    decreases a.len() - pos, 3int,
{
    if 0 <= pos < a.len() && a[pos] == "-a"@ {
        match not_spec(a, pos + 1, ans, k) {
            Outcome::Value(w, p, k2) => if pos + 1 < p <= a.len() {
                and_rest(a, v && w, p, ans, k2)
            } else {
                Outcome::Value(v && w, p, k2)
            },
            other => other,
        }
    } else {
        Outcome::Value(v, pos, k)
    }
}

/// `! EXPR`, or a primary.
pub open spec fn not_spec(a: Seq<Seq<char>>, pos: int, ans: Seq<bool>, k: int) -> Outcome
    decreases a.len() - pos, 1int,
{
    if 0 <= pos < a.len() && a[pos] == "!"@ {
        match not_spec(a, pos + 1, ans, k) {
            Outcome::Value(v, p, k2) => Outcome::Value(!v, p, k2),
            other => other,
        }
    } else {
        primary_spec(a, pos, ans, k)
    }
}

/// A primary: a string test, a file test, a parenthesized expression, a
/// comparison, or a single word.
pub open spec fn primary_spec(a: Seq<Seq<char>>, pos: int, ans: Seq<bool>, k: int) -> Outcome
    decreases a.len() - pos, 0int,
{
    if pos < 0 || pos > a.len() {
        Outcome::Fail(end_msg())
    } else if pos < a.len() && (a[pos] == "-z"@ || a[pos] == "-n"@) {
        if pos + 1 < a.len() {
            Outcome::Value(if a[pos] == "-z"@ { a[pos + 1].len() == 0 } else { a[pos + 1].len() != 0 }, pos + 2, k)
        } else {
            Outcome::Fail(end_msg())
        }
    } else if pos < a.len() && file_op(a[pos]) is Some {
        if pos + 1 < a.len() {
            if 0 <= k < ans.len() {
                Outcome::Value(ans[k], pos + 2, k + 1)
            } else {
                Outcome::Probe(file_op(a[pos])->0, a[pos + 1])
            }
        } else {
            Outcome::Fail(end_msg())
        }
    } else if pos < a.len() && a[pos] == "("@ {
        match or_spec(a, pos + 1, ans, k) {
            Outcome::Value(v, p, k2) => if 0 <= p < a.len() && a[p] == ")"@ {
                Outcome::Value(v, p + 1, k2)
            } else {
                Outcome::Fail("expected ')'"@)
            },
            other => other,
        }
    } else if pos >= a.len() {
        Outcome::Fail(end_msg())
    } else {
        let lhs = a[pos];
        if pos + 1 < a.len() && (a[pos + 1] == "="@ || a[pos + 1] == "!="@) {
            if pos + 2 < a.len() {
                Outcome::Value(if a[pos + 1] == "="@ { lhs == a[pos + 2] } else { lhs != a[pos + 2] }, pos + 3, k)
            } else {
                Outcome::Fail(end_msg())
            }
        } else if pos + 1 < a.len() && int_op(a[pos + 1]) is Some {
            if pos + 2 < a.len() {
                let rhs = a[pos + 2];
                match test_int(lhs) {
                    None => Outcome::Fail(int_msg(lhs)),
                    Some(x) => match test_int(rhs) {
                        None => Outcome::Fail(int_msg(rhs)),
                        Some(y) => Outcome::Value(int_holds(int_op(a[pos + 1])->0, x, y), pos + 3, k),
                    },
                }
            } else {
                Outcome::Fail(end_msg())
            }
        } else {
            Outcome::Value(lhs.len() != 0, pos + 1, k)
        }
    }
}

/// What `test ARGS...` comes to, with the answers of its first file tests
/// known: its truth, or the message of a malformed expression, or the file
/// test whose answer is needed next.
pub enum TestResult {
    Truth(bool),
    Malformed(Seq<char>),
    NeedsProbe(FileTest, Seq<char>),
}

pub open spec fn test_spec(a: Seq<Seq<char>>, ans: Seq<bool>) -> TestResult {
    if a.len() == 0 {
        TestResult::Truth(false)
    } else {
        match or_spec(a, 0, ans, 0) {
            Outcome::Value(v, p, _) => if p == a.len() {
                TestResult::Truth(v)
            } else if 0 <= p < a.len() {
                TestResult::Malformed("unexpected argument '"@ + a[p] + "'"@)
            } else {
                TestResult::Malformed(end_msg())
            },
            Outcome::Fail(m) => TestResult::Malformed(m),
            Outcome::Probe(op, path) => TestResult::NeedsProbe(op, path),
        }
    }
}

/// One step of evaluating `test`.
pub enum TestStep {
    /// The expression's truth.
    Truth(bool),
    /// The expression is malformed: the message.
    Malformed(String),
    /// Answer this file test (append its result to the answers) and
    /// evaluate again.
    NeedsProbe(FileTest, String),
}

pub open spec fn step_view(s: TestStep) -> TestResult {
    match s {
        TestStep::Truth(b) => TestResult::Truth(b),
        TestStep::Malformed(m) => TestResult::Malformed(m@),
        TestStep::NeedsProbe(op, p) => TestResult::NeedsProbe(op, p@),
    }
}

/// An evaluation step inside the expression.
enum Partial {
    Value(bool, usize, usize),
    Fail(String),
    Probe(FileTest, String),
}

spec fn partial_view(p: Partial) -> Outcome {
    match p {
        Partial::Value(v, i, k) => Outcome::Value(v, i as int, k as int),
        Partial::Fail(m) => Outcome::Fail(m@),
        Partial::Probe(op, path) => Outcome::Probe(op, path@),
    }
}

/// The file test an operator names.
fn file_op_of(s: &str) -> (r: Option<FileTest>)
    ensures
        r == file_op(s@),
{
    if str_eq(s, "-e") {
        Some(FileTest::Exists)
    } else if str_eq(s, "-f") {
        Some(FileTest::IsFile)
    } else if str_eq(s, "-d") {
        Some(FileTest::IsDir)
    } else if str_eq(s, "-r") {
        Some(FileTest::Readable)
    } else if str_eq(s, "-w") {
        Some(FileTest::Writable)
    } else if str_eq(s, "-x") {
        Some(FileTest::Executable)
    } else if str_eq(s, "-s") {
        Some(FileTest::NonEmpty)
    } else if str_eq(s, "-L") {
        Some(FileTest::IsSymlink)
    } else {
        None
    }
}

/// The integer comparison an operator names.
fn int_op_of(s: &str) -> (r: Option<IntTest>)
    ensures
        r == int_op(s@),
{
    if str_eq(s, "-eq") {
        Some(IntTest::Eq)
    } else if str_eq(s, "-ne") {
        Some(IntTest::Ne)
    } else if str_eq(s, "-lt") {
        Some(IntTest::Lt)
    } else if str_eq(s, "-le") {
        Some(IntTest::Le)
    } else if str_eq(s, "-gt") {
        Some(IntTest::Gt)
    } else if str_eq(s, "-ge") {
        Some(IntTest::Ge)
    } else {
        None
    }
}

/// Whether the argument is empty.
fn is_empty_text(s: &str) -> (r: bool)
    ensures
        r == (s@.len() == 0),
{
    chars_of(s).len() == 0
}

/// The argument as a number, as `test` reads it.
fn int_of(s: &str) -> (r: Option<i64>)
    ensures
        match r {
            Some(v) => test_int(s@) == Some(v as int),
            None => test_int(s@) is None,
        },
{
    let cs = chars_of(s);
    let t = trim(cs.as_slice());
    parse_i64(t.as_slice())
}

fn int_msg_of(s: &str) -> (r: String)
    ensures
        r@ == int_msg(s@),
{
    let a = concat_str("integer expected: '", s);
    concat_str(a.as_str(), "'")
}

fn end_message() -> (r: String)
    ensures
        r@ == end_msg(),
{
    "unexpected end of expression".to_string()
}

fn or_expr(a: &[String], pos: usize, ans: &[bool], k: usize) -> (r: Partial)
    requires
        pos <= a@.len(),
        k <= ans@.len(),
    ensures
        partial_view(r) == or_spec(texts(a@), pos as int, ans@, k as int),
        match r {
            Partial::Value(_, p, k2) => p <= a@.len() && k2 <= ans@.len(),
            _ => true,
        },
    decreases a@.len() - pos, 4int,
{
    match and_expr(a, pos, ans, k) {
        Partial::Value(v, p, k2) => {
            if pos < p && p <= a.len() {
                or_chain(a, v, p, ans, k2)
            } else {
                Partial::Value(v, p, k2)
            }
        },
        other => other,
    }
}

fn or_chain(a: &[String], v: bool, pos: usize, ans: &[bool], k: usize) -> (r: Partial)
    requires
        pos <= a@.len(),
        k <= ans@.len(),
    ensures
        partial_view(r) == or_rest(texts(a@), v, pos as int, ans@, k as int),
        match r {
            Partial::Value(_, p, k2) => p <= a@.len() && k2 <= ans@.len(),
            _ => true,
        },
    decreases a@.len() - pos, 5int,
{
    if pos < a.len() && str_eq(a[pos].as_str(), "-o") {
        match and_expr(a, pos + 1, ans, k) {
            Partial::Value(w, p, k2) => {
                if pos + 1 < p && p <= a.len() {
                    or_chain(a, v || w, p, ans, k2)
                } else {
                    Partial::Value(v || w, p, k2)
                }
            },
            other => other,
        }
    } else {
        Partial::Value(v, pos, k)
    }
}

fn and_expr(a: &[String], pos: usize, ans: &[bool], k: usize) -> (r: Partial)
    requires
        pos <= a@.len(),
        k <= ans@.len(),
    ensures
        partial_view(r) == and_spec(texts(a@), pos as int, ans@, k as int),
        match r {
            Partial::Value(_, p, k2) => p <= a@.len() && k2 <= ans@.len(),
            _ => true,
        },
    decreases a@.len() - pos, 2int,
{
    match not_expr(a, pos, ans, k) {
        Partial::Value(v, p, k2) => {
            if pos < p && p <= a.len() {
                and_chain(a, v, p, ans, k2)
            } else {
                Partial::Value(v, p, k2)
            }
        },
        other => other,
    }
}

fn and_chain(a: &[String], v: bool, pos: usize, ans: &[bool], k: usize) -> (r: Partial)
    requires
        pos <= a@.len(),
        k <= ans@.len(),
    ensures
        partial_view(r) == and_rest(texts(a@), v, pos as int, ans@, k as int),
        match r {
            Partial::Value(_, p, k2) => p <= a@.len() && k2 <= ans@.len(),
            _ => true,
        },
    decreases a@.len() - pos, 3int,
{
    if pos < a.len() && str_eq(a[pos].as_str(), "-a") {
        match not_expr(a, pos + 1, ans, k) {
            Partial::Value(w, p, k2) => {
                if pos + 1 < p && p <= a.len() {
                    and_chain(a, v && w, p, ans, k2)
                } else {
                    Partial::Value(v && w, p, k2)
                }
            },
            other => other,
        }
    } else {
        Partial::Value(v, pos, k)
    }
}

fn not_expr(a: &[String], pos: usize, ans: &[bool], k: usize) -> (r: Partial)
    requires
        pos <= a@.len(),
        k <= ans@.len(),
    ensures
        partial_view(r) == not_spec(texts(a@), pos as int, ans@, k as int),
        match r {
            Partial::Value(_, p, k2) => p <= a@.len() && k2 <= ans@.len(),
            _ => true,
        },
    decreases a@.len() - pos, 1int,
{
    if pos < a.len() && str_eq(a[pos].as_str(), "!") {
        match not_expr(a, pos + 1, ans, k) {
            Partial::Value(v, p, k2) => Partial::Value(!v, p, k2),
            other => other,
        }
    } else {
        primary(a, pos, ans, k)
    }
}

fn primary(a: &[String], pos: usize, ans: &[bool], k: usize) -> (r: Partial)
    requires
        pos <= a@.len(),
        k <= ans@.len(),
    ensures
        partial_view(r) == primary_spec(texts(a@), pos as int, ans@, k as int),
        match r {
            Partial::Value(_, p, k2) => p <= a@.len() && k2 <= ans@.len(),
            _ => true,
        },
    decreases a@.len() - pos, 0int,
{
    let n = a.len();
    if pos < n && (str_eq(a[pos].as_str(), "-z") || str_eq(a[pos].as_str(), "-n")) {
        if n - pos > 1 {
            let empty = is_empty_text(a[pos + 1].as_str());
            let v = if str_eq(a[pos].as_str(), "-z") {
                empty
            } else {
                !empty
            };
            Partial::Value(v, pos + 2, k)
        } else {
            Partial::Fail(end_message())
        }
    } else if pos < n && file_op_of(a[pos].as_str()).is_some() {
        if n - pos > 1 {
            if k < ans.len() {
                Partial::Value(ans[k], pos + 2, k + 1)
            } else {
                match file_op_of(a[pos].as_str()) {
                    Some(op) => Partial::Probe(op, a[pos + 1].clone()),
                    None => Partial::Fail(end_message()),
                }
            }
        } else {
            Partial::Fail(end_message())
        }
    } else if pos < n && str_eq(a[pos].as_str(), "(") {
        match or_expr(a, pos + 1, ans, k) {
            Partial::Value(v, p, k2) => {
                if p < n && str_eq(a[p].as_str(), ")") {
                    Partial::Value(v, p + 1, k2)
                } else {
                    Partial::Fail("expected ')'".to_string())
                }
            },
            other => other,
        }
    } else if pos >= n {
        Partial::Fail(end_message())
    } else {
        let lhs = a[pos].as_str();
        if n - pos > 1 && (str_eq(a[pos + 1].as_str(), "=") || str_eq(a[pos + 1].as_str(), "!=")) {
            if n - pos > 2 {
                let same = str_eq(lhs, a[pos + 2].as_str());
                let v = if str_eq(a[pos + 1].as_str(), "=") {
                    same
                } else {
                    !same
                };
                Partial::Value(v, pos + 3, k)
            } else {
                Partial::Fail(end_message())
            }
        } else if n - pos > 1 && int_op_of(a[pos + 1].as_str()).is_some() {
            if n - pos > 2 {
                let rhs = a[pos + 2].as_str();
                match int_of(lhs) {
                    None => Partial::Fail(int_msg_of(lhs)),
                    Some(x) => match int_of(rhs) {
                        None => Partial::Fail(int_msg_of(rhs)),
                        Some(y) => {
                            let v = match int_op_of(a[pos + 1].as_str()) {
                                Some(IntTest::Eq) => x == y,
                                Some(IntTest::Ne) => x != y,
                                Some(IntTest::Lt) => x < y,
                                Some(IntTest::Le) => x <= y,
                                Some(IntTest::Gt) => x > y,
                                Some(IntTest::Ge) => x >= y,
                                None => false,
                            };
                            Partial::Value(v, pos + 3, k)
                        },
                    },
                }
            } else {
                Partial::Fail(end_message())
            }
        } else {
            Partial::Value(!is_empty_text(lhs), pos + 1, k)
        }
    }
}

/// Evaluates `test ARGS...` with the answers of its first file tests (in
/// the order it asks for them).
pub fn eval(args: &[String], answers: &[bool]) -> (r: TestStep)
    ensures
        step_view(r) == test_spec(texts(args@), answers@),
{
    if args.len() == 0 {
        return TestStep::Truth(false);
    }
    match or_expr(args, 0, answers, 0) {
        Partial::Value(v, p, _) => {
            if p == args.len() {
                TestStep::Truth(v)
            } else {
                let a = concat_str("unexpected argument '", args[p].as_str());
                TestStep::Malformed(concat_str(a.as_str(), "'"))
            }
        },
        Partial::Fail(m) => TestStep::Malformed(m),
        Partial::Probe(op, path) => TestStep::NeedsProbe(op, path),
    }
}

/// The status of `test` and what it writes to standard error: 0 when the
/// expression holds, 1 when it does not, 2 with a message when it is
/// malformed.
pub fn test_status(truth: Result<bool, String>) -> (r: (i32, String))
    ensures
        match truth {
            Ok(true) => r.0 == 0 && r.1@.len() == 0,
            Ok(false) => r.0 == 1 && r.1@.len() == 0,
            Err(m) => r.0 == 2 && r.1@ == "xsh: test: "@ + m@ + "\n"@,
        },
{
    match truth {
        Ok(true) => (0, String::new()),
        Ok(false) => (1, String::new()),
        Err(m) => {
            let a = concat_str("xsh: test: ", m.as_str());
            (2, concat_str(a.as_str(), "\n"))
        },
    }
}

proof fn lemma_or_answers(a: Seq<Seq<char>>, pos: int, ans: Seq<bool>, more: Seq<bool>, k: int)
    ensures
        !(or_spec(a, pos, ans, k) is Probe) ==> or_spec(a, pos, ans + more, k) == or_spec(a, pos, ans, k),
    decreases a.len() - pos, 4int,
{
    lemma_and_answers(a, pos, ans, more, k);
    match and_spec(a, pos, ans, k) {
        Outcome::Value(v, p, k2) => if pos < p <= a.len() {
            lemma_or_rest_answers(a, v, p, ans, more, k2);
        },
        _ => {},
    }
}

proof fn lemma_or_rest_answers(a: Seq<Seq<char>>, v: bool, pos: int, ans: Seq<bool>, more: Seq<bool>, k: int)
    ensures
        !(or_rest(a, v, pos, ans, k) is Probe) ==> or_rest(a, v, pos, ans + more, k) == or_rest(a, v, pos, ans, k),
    decreases a.len() - pos, 5int,
{
    if 0 <= pos < a.len() && a[pos] == "-o"@ {
        lemma_and_answers(a, pos + 1, ans, more, k);
        match and_spec(a, pos + 1, ans, k) {
            Outcome::Value(w, p, k2) => if pos + 1 < p <= a.len() {
                lemma_or_rest_answers(a, v || w, p, ans, more, k2);
            },
            _ => {},
        }
    }
}

proof fn lemma_and_answers(a: Seq<Seq<char>>, pos: int, ans: Seq<bool>, more: Seq<bool>, k: int)
    ensures
        !(and_spec(a, pos, ans, k) is Probe) ==> and_spec(a, pos, ans + more, k) == and_spec(a, pos, ans, k),
    decreases a.len() - pos, 2int,
{
    lemma_not_answers(a, pos, ans, more, k);
    match not_spec(a, pos, ans, k) {
        Outcome::Value(v, p, k2) => if pos < p <= a.len() {
            lemma_and_rest_answers(a, v, p, ans, more, k2);
        },
        _ => {},
    }
}

proof fn lemma_and_rest_answers(a: Seq<Seq<char>>, v: bool, pos: int, ans: Seq<bool>, more: Seq<bool>, k: int)
    ensures
        !(and_rest(a, v, pos, ans, k) is Probe) ==> and_rest(a, v, pos, ans + more, k) == and_rest(a, v, pos, ans, k),
    decreases a.len() - pos, 3int,
{
    if 0 <= pos < a.len() && a[pos] == "-a"@ {
        lemma_not_answers(a, pos + 1, ans, more, k);
        match not_spec(a, pos + 1, ans, k) {
            Outcome::Value(w, p, k2) => if pos + 1 < p <= a.len() {
                lemma_and_rest_answers(a, v && w, p, ans, more, k2);
            },
            _ => {},
        }
    }
}

proof fn lemma_not_answers(a: Seq<Seq<char>>, pos: int, ans: Seq<bool>, more: Seq<bool>, k: int)
    ensures
        !(not_spec(a, pos, ans, k) is Probe) ==> not_spec(a, pos, ans + more, k) == not_spec(a, pos, ans, k),
    decreases a.len() - pos, 1int,
{
    if 0 <= pos < a.len() && a[pos] == "!"@ {
        lemma_not_answers(a, pos + 1, ans, more, k);
    } else {
        lemma_primary_answers(a, pos, ans, more, k);
    }
}

proof fn lemma_primary_answers(a: Seq<Seq<char>>, pos: int, ans: Seq<bool>, more: Seq<bool>, k: int)
    ensures
        !(primary_spec(a, pos, ans, k) is Probe) ==> primary_spec(a, pos, ans + more, k) == primary_spec(
            a,
            pos,
            ans,
            k,
        ),
    decreases a.len() - pos, 0int,
{
    if 0 <= pos < a.len() && !(a[pos] == "-z"@ || a[pos] == "-n"@) && file_op(a[pos]) is None && a[pos] == "("@ {
        lemma_or_answers(a, pos + 1, ans, more, k);
    }
    if 0 <= k < ans.len() {
        assert((ans + more)[k] == ans[k]);
    }
}

/// Answering more file tests than `test` asked for changes nothing: once
/// the answers known suffice, further answers are not looked at.
pub proof fn extra_answers_are_ignored(args: Seq<Seq<char>>, answers: Seq<bool>, more: Seq<bool>)
    requires
        !(test_spec(args, answers) is NeedsProbe),
    ensures
        test_spec(args, answers + more) == test_spec(args, answers),
{
    if args.len() > 0 {
        lemma_or_answers(args, 0, answers, more, 0);
    }
}

/// A number as `test` reads it ends with a digit.
proof fn lemma_number_ends_with_digit(t: Seq<char>)
    requires
        parse_i64_spec(t) is Some,
    ensures
        t.len() > 0 && is_digit(t.last()),
{
    let signed = t.len() > 0 && (t[0] == '-' || t[0] == '+');
    let digits = if signed { t.drop_first() } else { t };
    assert(digits[digits.len() - 1] == t[t.len() - 1]);
}

/// A word that ends with something other than a digit or white space is
/// no number to `test`.
proof fn lemma_not_a_number(s: Seq<char>)
    requires
        s.len() > 0,
        !char_white_space(s[0]),
        !char_white_space(s.last()),
        !is_digit(s.last()),
    ensures
        test_int(s) is None,
{
    lemma_trim_unchanged(s);
    if test_int(s) is Some {
        lemma_number_ends_with_digit(trim_spec(s));
    }
}

/// A word that reads as a number is none of the words that start another
/// kind of primary.
proof fn lemma_number_is_no_operator(s: Seq<char>)
    requires
        test_int(s) is Some,
    ensures
        s != "-z"@ && s != "-n"@ && s != "("@ && s != "!"@ && file_op(s) is None,
{
    reveal_strlit("-z");
    reveal_strlit("-n");
    reveal_strlit("(");
    reveal_strlit("!");
    reveal_strlit("-e");
    reveal_strlit("-f");
    reveal_strlit("-d");
    reveal_strlit("-r");
    reveal_strlit("-w");
    reveal_strlit("-x");
    reveal_strlit("-s");
    reveal_strlit("-L");
    if s.len() > 0 && !char_white_space(s[0]) && !char_white_space(s.last()) && !is_digit(s.last()) {
        lemma_not_a_number(s);
    }
}

/// `test A OP B` for an integer comparison `OP` with numbers on both sides.
proof fn lemma_int_comparison(a1: Seq<char>, o: Seq<char>, a2: Seq<char>, ans: Seq<bool>, op: IntTest)
    requires
        int_op(o) == Some(op),
        o != "="@ && o != "!="@,
        test_int(a1) is Some,
        test_int(a2) is Some,
    ensures
        test_spec(seq![a1, o, a2], ans) == TestResult::Truth(
            int_holds(op, test_int(a1)->0, test_int(a2)->0),
        ),
{
    let a = seq![a1, o, a2];
    let v = int_holds(op, test_int(a1)->0, test_int(a2)->0);
    lemma_number_is_no_operator(a1);
    assert(a[0] == a1 && a[1] == o && a[2] == a2);
    assert(primary_spec(a, 0, ans, 0) == Outcome::Value(v, 3, 0));
    assert(not_spec(a, 0, ans, 0) == Outcome::Value(v, 3, 0));
    assert(and_rest(a, v, 3, ans, 0) == Outcome::Value(v, 3, 0));
    assert(and_spec(a, 0, ans, 0) == Outcome::Value(v, 3, 0));
    assert(or_rest(a, v, 3, ans, 0) == Outcome::Value(v, 3, 0));
    assert(or_spec(a, 0, ans, 0) == Outcome::Value(v, 3, 0));
}

/// The six comparison operators, each naming its own comparison and none
/// of them a string comparison.
proof fn lemma_int_ops_named()
    ensures
        int_op("-eq"@) == Some(IntTest::Eq),
        int_op("-ne"@) == Some(IntTest::Ne),
        int_op("-lt"@) == Some(IntTest::Lt),
        int_op("-le"@) == Some(IntTest::Le),
        int_op("-gt"@) == Some(IntTest::Gt),
        int_op("-ge"@) == Some(IntTest::Ge),
        int_op("="@) is None,
        int_op("!="@) is None,
{
    reveal_strlit("-eq");
    reveal_strlit("-ne");
    reveal_strlit("-lt");
    reveal_strlit("-le");
    reveal_strlit("-gt");
    reveal_strlit("-ge");
    reveal_strlit("=");
    reveal_strlit("!=");
    assert("="@.len() == 1 && "!="@.len() == 2);
    assert("-eq"@.len() == 3 && "-ne"@.len() == 3 && "-lt"@.len() == 3);
    assert("-le"@.len() == 3 && "-gt"@.len() == 3 && "-ge"@.len() == 3);
    assert("-ne"@[1] != "-eq"@[1]);
    assert("-lt"@[1] != "-eq"@[1] && "-lt"@[1] != "-ne"@[1]);
    assert("-le"@[2] != "-lt"@[2] && "-le"@[1] != "-eq"@[1] && "-le"@[1] != "-ne"@[1]);
    assert("-gt"@[1] != "-eq"@[1] && "-gt"@[1] != "-ne"@[1] && "-gt"@[1] != "-lt"@[1] && "-gt"@[1] != "-le"@[1]);
    assert("-ge"@[2] != "-gt"@[2] && "-ge"@[1] != "-eq"@[1] && "-ge"@[1] != "-ne"@[1] && "-ge"@[1] != "-lt"@[1]
        && "-ge"@[1] != "-le"@[1]);
}

/// The integer comparisons of `test` compare the numbers their operands
/// spell: `A -eq B` holds when they are equal, `-ne` when they differ,
/// `-lt` and `-le` when `A` is less (or, for `-le`, equal), `-gt` and `-ge`
/// when `A` is greater (or, for `-ge`, equal).
pub proof fn integer_comparisons_compare_values(a1: Seq<char>, a2: Seq<char>, ans: Seq<bool>)
    requires
        test_int(a1) is Some,
        test_int(a2) is Some,
    ensures
        ({
            let x = test_int(a1)->0;
            let y = test_int(a2)->0;
            &&& test_spec(seq![a1, "-eq"@, a2], ans) == TestResult::Truth(x == y)
            &&& test_spec(seq![a1, "-ne"@, a2], ans) == TestResult::Truth(x != y)
            &&& test_spec(seq![a1, "-lt"@, a2], ans) == TestResult::Truth(x < y)
            &&& test_spec(seq![a1, "-le"@, a2], ans) == TestResult::Truth(x <= y)
            &&& test_spec(seq![a1, "-gt"@, a2], ans) == TestResult::Truth(x > y)
            &&& test_spec(seq![a1, "-ge"@, a2], ans) == TestResult::Truth(x >= y)
        }),
{
    lemma_int_ops_named();
    lemma_int_comparison(a1, "-eq"@, a2, ans, IntTest::Eq);
    lemma_int_comparison(a1, "-ne"@, a2, ans, IntTest::Ne);
    lemma_int_comparison(a1, "-lt"@, a2, ans, IntTest::Lt);
    lemma_int_comparison(a1, "-le"@, a2, ans, IntTest::Le);
    lemma_int_comparison(a1, "-gt"@, a2, ans, IntTest::Gt);
    lemma_int_comparison(a1, "-ge"@, a2, ans, IntTest::Ge);
}

/// A word that starts a primary of its own kind (`-z`, `-n`, a file test,
/// `(`) or a negation (`!`) rather than standing for itself.
pub open spec fn is_operator_word(s: Seq<char>) -> bool {
    s == "-z"@ || s == "-n"@ || s == "("@ || s == "!"@ || file_op(s) is Some
}

/// The connectives and string comparisons are none of the integer
/// comparisons, and are told apart from each other.
proof fn lemma_connectives_named()
    ensures
        int_op("-a"@) is None,
        int_op("-o"@) is None,
        int_op("="@) is None,
        int_op("!="@) is None,
        "-a"@ != "="@ && "-a"@ != "!="@ && "-o"@ != "="@ && "-o"@ != "!="@,
        "-a"@ != "-o"@ && "="@ != "!="@,
        "-a"@ != "!"@ && "-o"@ != "!"@,
{
    reveal_strlit("-a");
    reveal_strlit("-o");
    reveal_strlit("=");
    reveal_strlit("!=");
    reveal_strlit("!");
    lemma_int_ops_named();
    assert("-a"@.len() == 2 && "-o"@.len() == 2 && "="@.len() == 1 && "!="@.len() == 2 && "!"@.len() == 1);
    assert("-a"@[1] != "-o"@[1]);
    assert("-a"@[0] != "!="@[0] && "-o"@[0] != "!="@[0]);
    assert("-eq"@.len() == 3 && "-ne"@.len() == 3 && "-lt"@.len() == 3) by {
        reveal_strlit("-eq");
        reveal_strlit("-ne");
        reveal_strlit("-lt");
    }
    assert("-le"@.len() == 3 && "-gt"@.len() == 3 && "-ge"@.len() == 3) by {
        reveal_strlit("-le");
        reveal_strlit("-gt");
        reveal_strlit("-ge");
    }
}

/// A single word that is no operator is a primary that holds when the word
/// is not empty.
proof fn lemma_word_primary(a: Seq<Seq<char>>, pos: int, ans: Seq<bool>, k: int)
    requires
        0 <= pos < a.len(),
        !is_operator_word(a[pos]),
        pos + 1 == a.len() || a[pos + 1] == "-a"@ || a[pos + 1] == "-o"@,
    ensures
        primary_spec(a, pos, ans, k) == Outcome::Value(a[pos].len() != 0, pos + 1, k),
        not_spec(a, pos, ans, k) == Outcome::Value(a[pos].len() != 0, pos + 1, k),
{
    lemma_connectives_named();
}

/// `test S1 = S2` holds when the two words are the same text, and
/// `test S1 != S2` when they differ.
pub proof fn string_comparisons_compare_text(s1: Seq<char>, s2: Seq<char>, ans: Seq<bool>)
    requires
        !is_operator_word(s1),
    ensures
        test_spec(seq![s1, "="@, s2], ans) == TestResult::Truth(s1 == s2),
        test_spec(seq![s1, "!="@, s2], ans) == TestResult::Truth(s1 != s2),
{
    lemma_connectives_named();
    let a = seq![s1, "="@, s2];
    let v = s1 == s2;
    assert(a[0] == s1 && a[1] == "="@ && a[2] == s2);
    assert(not_spec(a, 0, ans, 0) == Outcome::Value(v, 3, 0));
    assert(and_spec(a, 0, ans, 0) == Outcome::Value(v, 3, 0));
    assert(or_spec(a, 0, ans, 0) == Outcome::Value(v, 3, 0));
    let b = seq![s1, "!="@, s2];
    let w = s1 != s2;
    assert(b[0] == s1 && b[1] == "!="@ && b[2] == s2);
    assert(not_spec(b, 0, ans, 0) == Outcome::Value(w, 3, 0));
    assert(and_spec(b, 0, ans, 0) == Outcome::Value(w, 3, 0));
    assert(or_spec(b, 0, ans, 0) == Outcome::Value(w, 3, 0));
}

/// `test -z S` holds when `S` is empty and `test -n S` when it is not;
/// `test S` on its own holds when `S` is not empty, and `test ! S` when it
/// is empty.
pub proof fn emptiness_tests(t: Seq<char>, ans: Seq<bool>)
    ensures
        test_spec(seq!["-z"@, t], ans) == TestResult::Truth(t.len() == 0),
        test_spec(seq!["-n"@, t], ans) == TestResult::Truth(t.len() != 0),
        !is_operator_word(t) ==> test_spec(seq![t], ans) == TestResult::Truth(t.len() != 0),
        !is_operator_word(t) ==> test_spec(seq!["!"@, t], ans) == TestResult::Truth(t.len() == 0),
{
    reveal_strlit("-z");
    reveal_strlit("-n");
    reveal_strlit("!");
    assert("-z"@ != "-n"@ && "-z"@ != "!"@ && "-n"@ != "!"@);
    let z = seq!["-z"@, t];
    assert(z[0] == "-z"@ && z[1] == t);
    assert(not_spec(z, 0, ans, 0) == Outcome::Value(t.len() == 0, 2, 0));
    assert(and_spec(z, 0, ans, 0) == Outcome::Value(t.len() == 0, 2, 0));
    assert(or_spec(z, 0, ans, 0) == Outcome::Value(t.len() == 0, 2, 0));
    let n = seq!["-n"@, t];
    assert(n[0] == "-n"@ && n[1] == t);
    assert(not_spec(n, 0, ans, 0) == Outcome::Value(t.len() != 0, 2, 0));
    assert(and_spec(n, 0, ans, 0) == Outcome::Value(t.len() != 0, 2, 0));
    assert(or_spec(n, 0, ans, 0) == Outcome::Value(t.len() != 0, 2, 0));
    if !is_operator_word(t) {
        let one = seq![t];
        lemma_word_primary(one, 0, ans, 0);
        assert(and_spec(one, 0, ans, 0) == Outcome::Value(t.len() != 0, 1, 0));
        assert(or_spec(one, 0, ans, 0) == Outcome::Value(t.len() != 0, 1, 0));
        let neg = seq!["!"@, t];
        assert(neg[0] == "!"@ && neg[1] == t);
        lemma_word_primary(neg, 1, ans, 0);
        assert(not_spec(neg, 0, ans, 0) == Outcome::Value(t.len() == 0, 2, 0));
        assert(and_spec(neg, 0, ans, 0) == Outcome::Value(t.len() == 0, 2, 0));
        assert(or_spec(neg, 0, ans, 0) == Outcome::Value(t.len() == 0, 2, 0));
    }
}

/// `test S1 -a S2` holds when both words are not empty, `test S1 -o S2`
/// when at least one is not empty.
pub proof fn connectives_combine_truth(s1: Seq<char>, s2: Seq<char>, ans: Seq<bool>)
    requires
        !is_operator_word(s1),
        !is_operator_word(s2),
    ensures
        test_spec(seq![s1, "-a"@, s2], ans) == TestResult::Truth(s1.len() != 0 && s2.len() != 0),
        test_spec(seq![s1, "-o"@, s2], ans) == TestResult::Truth(s1.len() != 0 || s2.len() != 0),
{
    lemma_connectives_named();
    let v1 = s1.len() != 0;
    let v2 = s2.len() != 0;
    let a = seq![s1, "-a"@, s2];
    assert(a[0] == s1 && a[1] == "-a"@ && a[2] == s2);
    lemma_word_primary(a, 0, ans, 0);
    lemma_word_primary(a, 2, ans, 0);
    assert(and_rest(a, v1 && v2, 3, ans, 0) == Outcome::Value(v1 && v2, 3, 0));
    assert(and_rest(a, v1, 1, ans, 0) == Outcome::Value(v1 && v2, 3, 0));
    assert(and_spec(a, 0, ans, 0) == Outcome::Value(v1 && v2, 3, 0));
    assert(or_spec(a, 0, ans, 0) == Outcome::Value(v1 && v2, 3, 0));
    let o = seq![s1, "-o"@, s2];
    assert(o[0] == s1 && o[1] == "-o"@ && o[2] == s2);
    lemma_word_primary(o, 0, ans, 0);
    lemma_word_primary(o, 2, ans, 0);
    assert(and_spec(o, 0, ans, 0) == Outcome::Value(v1, 1, 0));
    assert(and_spec(o, 2, ans, 0) == Outcome::Value(v2, 3, 0));
    assert(or_rest(o, v1 || v2, 3, ans, 0) == Outcome::Value(v1 || v2, 3, 0));
    assert(or_rest(o, v1, 1, ans, 0) == Outcome::Value(v1 || v2, 3, 0));
    assert(or_spec(o, 0, ans, 0) == Outcome::Value(v1 || v2, 3, 0));
}

} // verus!
