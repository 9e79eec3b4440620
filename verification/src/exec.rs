//! Expansion of words and the bookkeeping of function calls and local
//! variables; the decisions of the interpreter that need no process.

use vstd::prelude::*;
use crate::arith::{arith_message, arith_spec, eval_checked, ArithError};
use crate::ast::{word_view, SpecWord, SpecWordPart, Sep, Word, WordPart};
use crate::state::Shell;
use crate::strmap::{lemma_text_map_insert, lemma_text_map_remove, text_map};
use crate::text::{chars_of, i64_to_string, int_to_dec, nat_to_dec, opt_text, parse_i64, parse_i64_spec, str_eq, string_from_chars, trim, trim_spec, usize_to_string};

verus! {

broadcast use vstd::string::group_string_axioms;

/// How a list of commands ended.
pub enum Flow {
    Normal,
    Break,
    Continue,
    Return(i32),
}

/// `s` without its trailing line feeds.
pub open spec fn strip_trailing_newlines(s: Seq<char>) -> Seq<char>
    decreases s.len(),
{
    if s.len() > 0 && s.last() == '\n' {
        strip_trailing_newlines(s.drop_last())
    } else {
        s
    }
}

/// The outcome of expanding a word.
pub enum Expansion {
    /// The expanded text.
    Text(Seq<char>),
    /// Expansion failed with this message.
    Failed(Seq<char>),
    /// The output of this command is needed (for the next `$(..)`).
    NeedsOutput(Seq<char>),
    /// An arithmetic expansion overflowed.
    Overflow,
}

/// Expansion of the parts of a word from index `i`, with the outputs of the
/// first `k` command substitutions known (`captured`), after the text `acc`.
pub open spec fn expand_parts(sh: Shell, parts: SpecWord, i: int, captured: Seq<Seq<char>>, k: int, acc: Seq<char>) -> Expansion
    decreases parts.len() - i,
{
    if i < 0 || i >= parts.len() {
        Expansion::Text(acc)
    } else {
        match parts[i] {
            SpecWordPart::Literal(s) => expand_parts(sh, parts, i + 1, captured, k, acc + s),
            SpecWordPart::Var(n) => expand_parts(
                sh,
                parts,
                i + 1,
                captured,
                k,
                match sh.var_spec(n) {
                    Some(v) => acc + v,
                    None => acc,
                },
            ),
            SpecWordPart::CmdSub(src) => if 0 <= k < captured.len() {
                expand_parts(sh, parts, i + 1, captured, k + 1, acc + strip_trailing_newlines(captured[k]))
            } else {
                Expansion::NeedsOutput(src)
            },
            SpecWordPart::Arith(src) => match arith_spec(src, text_map(sh.vars@)) {
                Ok(v) => expand_parts(sh, parts, i + 1, captured, k, acc + int_to_dec(v)),
                Err(ArithError::Overflow) => Expansion::Overflow,
                Err(e) => Expansion::Failed(arith_message(e)),
            },
        }
    }
}

/// Expansion of a word, given the outputs of its command substitutions
/// that are known so far, in order.
pub open spec fn expand_spec(sh: Shell, word: SpecWord, captured: Seq<Seq<char>>) -> Expansion {
    expand_parts(sh, word, 0, captured, 0, Seq::empty())
}

proof fn lemma_expand_outputs(
    sh: Shell,
    parts: SpecWord,
    i: int,
    captured: Seq<Seq<char>>,
    more: Seq<Seq<char>>,
    k: int,
    acc: Seq<char>,
)
    ensures
        !(expand_parts(sh, parts, i, captured, k, acc) is NeedsOutput) ==> expand_parts(
            sh,
            parts,
            i,
            captured + more,
            k,
            acc,
        ) == expand_parts(sh, parts, i, captured, k, acc),
    decreases parts.len() - i,
{
    if 0 <= i < parts.len() {
        match parts[i] {
            SpecWordPart::Literal(s) => lemma_expand_outputs(sh, parts, i + 1, captured, more, k, acc + s),
            SpecWordPart::Var(n) => lemma_expand_outputs(
                sh,
                parts,
                i + 1,
                captured,
                more,
                k,
                match sh.var_spec(n) {
                    Some(v) => acc + v,
                    None => acc,
                },
            ),
            SpecWordPart::CmdSub(_) => if 0 <= k < captured.len() {
                assert((captured + more)[k] == captured[k]);
                lemma_expand_outputs(
                    sh,
                    parts,
                    i + 1,
                    captured,
                    more,
                    k + 1,
                    acc + strip_trailing_newlines(captured[k]),
                );
            },
            SpecWordPart::Arith(src) => match arith_spec(src, text_map(sh.vars@)) {
                Ok(v) => lemma_expand_outputs(sh, parts, i + 1, captured, more, k, acc + int_to_dec(v)),
                _ => {},
            },
        }
    }
}

/// Handing expansion more command outputs than it asked for changes
/// nothing: a word whose expansion needs no further output expands the
/// same with extra outputs.
pub proof fn extra_outputs_are_ignored(sh: Shell, word: SpecWord, captured: Seq<Seq<char>>, more: Seq<Seq<char>>)
    requires
        !(expand_spec(sh, word, captured) is NeedsOutput),
    ensures
        expand_spec(sh, word, captured + more) == expand_spec(sh, word, captured),
{
    lemma_expand_outputs(sh, word, 0, captured, more, 0, Seq::empty());
}

/// A variable that is set expands to its value, and one that is not set
/// to nothing (for names other than `?`, `$` and `0`, which the shell
/// itself defines).
pub proof fn variable_expands_to_its_value(sh: Shell, name: Seq<char>)
    requires
        name != "?"@,
        name != "$"@,
        name != "0"@,
    ensures
        expand_spec(sh, seq![SpecWordPart::Var(name)], Seq::empty()) == Expansion::Text(
            if text_map(sh.vars@).contains_key(name) {
                text_map(sh.vars@)[name]
            } else {
                Seq::empty()
            },
        ),
{
    let w = seq![SpecWordPart::Var(name)];
    let acc = match sh.var_spec(name) {
        Some(v) => Seq::<char>::empty() + v,
        None => Seq::<char>::empty(),
    };
    assert(expand_parts(sh, w, 1, Seq::empty(), 0, acc) == Expansion::Text(acc));
    if text_map(sh.vars@).contains_key(name) {
        assert(acc =~= text_map(sh.vars@)[name]);
    }
}

/// The result of one expansion attempt.
pub enum ExpandStep {
    Text(String),
    Failed(String),
    NeedsOutput(String),
    Overflow,
}

pub open spec fn expand_step_view(r: ExpandStep) -> Expansion {
    match r {
        ExpandStep::Text(s) => Expansion::Text(s@),
        ExpandStep::Failed(s) => Expansion::Failed(s@),
        ExpandStep::NeedsOutput(s) => Expansion::NeedsOutput(s@),
        ExpandStep::Overflow => Expansion::Overflow,
    }
}

/// `s` without its trailing line feeds.
pub fn trim_trailing_newlines(s: &str) -> (r: String)
    ensures
        r@ == strip_trailing_newlines(s@),
{
    let cs = chars_of(s);
    let mut n = cs.len();
    assert(cs@.subrange(0, n as int) =~= cs@);
    while n > 0 && cs[n - 1] == '\n'
        invariant
            n <= cs@.len(),
            strip_trailing_newlines(cs@.subrange(0, n as int)) == strip_trailing_newlines(cs@),
        decreases n,
    {
        assert(cs@.subrange(0, n as int).drop_last() =~= cs@.subrange(0, n - 1));
        n = n - 1;
    }
    let mut v: Vec<char> = Vec::new();
    let mut i: usize = 0;
    while i < n
        invariant
            i <= n <= cs@.len(),
            v@ == cs@.subrange(0, i as int),
        decreases n - i,
    {
        v.push(cs[i]);
        i = i + 1;
        assert(v@ =~= cs@.subrange(0, i as int));
    }
    assert(cs@.subrange(0, cs@.len() as int) =~= cs@);
    string_from_chars(v.as_slice())
}

/// The arguments joined with single spaces.
pub fn join_with_spaces(args: &[String]) -> (r: String)
    ensures
        r@ == join_spaces(args@.map_values(|a: String| a@)),
{
    let ghost argv = args@.map_values(|a: String| a@);
    let mut acc: Vec<char> = Vec::new();
    let mut i: usize = 0;
    while i < args.len()
        invariant
            i <= args@.len(),
            argv == args@.map_values(|a: String| a@),
            acc@ == join_spaces(argv.subrange(0, i as int)),
        decreases args.len() - i,
    {
        if i > 0 {
            acc.push(' ');
        }
        push_str(&mut acc, args[i].as_str());
        proof {
            let sub = argv.subrange(0, i + 1);
            assert(sub.drop_last() =~= argv.subrange(0, i as int));
            if i == 0 {
                assert(sub =~= seq![argv[0]]);
            }
        }
        i = i + 1;
    }
    assert(argv.subrange(0, args@.len() as int) =~= argv);
    string_from_chars(acc.as_slice())
}

/// Appends the characters of `s` to `acc`.
fn push_str(acc: &mut Vec<char>, s: &str)
    ensures
        final(acc)@ == old(acc)@ + s@,
{
    let cs = chars_of(s);
    let ghost a0 = acc@;
    let mut i: usize = 0;
    while i < cs.len()
        invariant
            i <= cs@.len(),
            acc@ == a0 + cs@.subrange(0, i as int),
        decreases cs.len() - i,
    {
        acc.push(cs[i]);
        i = i + 1;
        assert(acc@ =~= a0 + cs@.subrange(0, i as int));
    }
    assert(cs@.subrange(0, cs@.len() as int) =~= cs@);
}

/// Saved variables as texts.
pub open spec fn saved_view(s: Seq<(String, Option<String>)>) -> Seq<(Seq<char>, Option<Seq<char>>)> {
    s.map_values(|x: (String, Option<String>)| (x.0@, opt_text(x.1)))
}

/// The variables after restoring saved values in order: a saved value is
/// set again, a name that was unset is removed.
pub open spec fn restore_vars(m: Map<Seq<char>, Seq<char>>, saved: Seq<(Seq<char>, Option<Seq<char>>)>) -> Map<Seq<char>, Seq<char>>
    decreases saved.len(),
{
    if saved.len() == 0 {
        m
    } else {
        let m1 = restore_vars(m, saved.drop_last());
        match saved.last().1 {
            Some(v) => m1.insert(saved.last().0, v),
            None => m1.remove(saved.last().0),
        }
    }
}

/// The names a function call saves: `@`, `#` and `1` to `9`.
pub open spec fn frame_names() -> Seq<Seq<char>> {
    seq!["@"@, "#"@] + Seq::new(9, |i: int| nat_to_dec((i + 1) as nat))
}

/// The text of `args` joined with single spaces.
pub open spec fn join_spaces(args: Seq<Seq<char>>) -> Seq<char>
    decreases args.len(),
{
    if args.len() == 0 {
        Seq::empty()
    } else if args.len() == 1 {
        args[0]
    } else {
        join_spaces(args.drop_last()) + seq![' '] + args.last()
    }
}

/// The variables with the positional parameters `1`, `2`, ... set to the
/// arguments, from index `i` on.
pub open spec fn set_positional(m: Map<Seq<char>, Seq<char>>, args: Seq<Seq<char>>, i: int) -> Map<Seq<char>, Seq<char>>
    decreases args.len() - i,
{
    if i < 0 || i >= args.len() {
        m
    } else {
        set_positional(m.insert(nat_to_dec((i + 1) as nat), args[i]), args, i + 1)
    }
}

/// The variables on entry to a function called with `args`.
pub open spec fn call_vars(m: Map<Seq<char>, Seq<char>>, args: Seq<Seq<char>>) -> Map<Seq<char>, Seq<char>> {
    set_positional(m, args, 0).insert("@"@, join_spaces(args)).insert("#"@, nat_to_dec(args.len()))
}

/// The saved names are distinct.
pub open spec fn names_distinct(saved: Seq<(Seq<char>, Option<Seq<char>>)>) -> bool {
    forall|i: int, j: int| 0 <= i < j < saved.len() ==> (#[trigger] saved[i]).0 != (#[trigger] saved[j]).0
}

/// Restoring saved variables with distinct names puts back each saved value
/// (or unsets the name).
pub proof fn restore_puts_back(m: Map<Seq<char>, Seq<char>>, saved: Seq<(Seq<char>, Option<Seq<char>>)>)
    requires
        names_distinct(saved),
    ensures
        forall|j: int|
            0 <= j < saved.len() ==> match (#[trigger] saved[j]).1 {
                Some(v) => restore_vars(m, saved).contains_key(saved[j].0) && restore_vars(m, saved)[saved[j].0] == v,
                None => !restore_vars(m, saved).contains_key(saved[j].0),
            },
    decreases saved.len(),
{
    if saved.len() > 0 {
        let d = saved.drop_last();
        assert(names_distinct(d)) by {
            assert forall|i: int, j: int| 0 <= i < j < d.len() implies (#[trigger] d[i]).0 != (#[trigger] d[j]).0 by {
                assert(d[i] == saved[i] && d[j] == saved[j]);
            }
        }
        restore_puts_back(m, d);
        assert forall|j: int| 0 <= j < saved.len() implies match (#[trigger] saved[j]).1 {
            Some(v) => restore_vars(m, saved).contains_key(saved[j].0) && restore_vars(m, saved)[saved[j].0] == v,
            None => !restore_vars(m, saved).contains_key(saved[j].0),
        } by {
            if j < saved.len() - 1 {
                assert(d[j] == saved[j]);
                assert(saved[j].0 != saved.last().0);
            }
        }
    }
}

/// Restoring leaves a variable whose name was not saved as it was.
pub proof fn restore_leaves_others(m: Map<Seq<char>, Seq<char>>, saved: Seq<(Seq<char>, Option<Seq<char>>)>, k: Seq<char>)
    requires
        forall|j: int| 0 <= j < saved.len() ==> (#[trigger] saved[j]).0 != k,
    ensures
        restore_vars(m, saved).contains_key(k) == m.contains_key(k),
        m.contains_key(k) ==> restore_vars(m, saved)[k] == m[k],
    decreases saved.len(),
{
    if saved.len() > 0 {
        let d = saved.drop_last();
        assert forall|j: int| 0 <= j < d.len() implies (#[trigger] d[j]).0 != k by {
            assert(d[j] == saved[j]);
        }
        assert(saved[saved.len() - 1].0 != k);
        restore_leaves_others(m, d, k);
    }
}

/// The names a call saves are distinct.
pub proof fn frame_names_distinct()
    ensures
        forall|i: int, j: int| 0 <= i < j < frame_names().len() ==> #[trigger] frame_names()[i] != #[trigger] frame_names()[j],
        frame_names().len() == 11,
{
    let f = frame_names();
    assert forall|d: int| 1 <= d <= 9 implies #[trigger] nat_to_dec(d as nat) == seq![((d + 48) as char)] by {
    }
    assert forall|i: int, j: int| 0 <= i < j < f.len() implies #[trigger] f[i] != #[trigger] f[j] by {
        if i >= 2 {
            assert(f[i] == nat_to_dec((i - 1) as nat));
            assert(f[j] == nat_to_dec((j - 1) as nat));
            assert(f[i][0] != f[j][0]);
        } else if j >= 2 {
            assert(f[j] == nat_to_dec((j - 1) as nat));
            assert(f[i] == (if i == 0 { "@"@ } else { "#"@ }));
            reveal_strlit("@");
            reveal_strlit("#");
            assert(f[i][0] != f[j][0]);
        } else {
            reveal_strlit("@");
            reveal_strlit("#");
            assert(f[0][0] != f[1][0]);
        }
    }
}

/// A function call gives the caller back its positional parameters: when
/// the frame that entering saved (with any locals declared after it, whose
/// names differ) is restored, `@`, `#` and `1` to `9` have their values
/// from before the call, whatever the body did to the variables.
pub proof fn call_restores_positional(
    before: Map<Seq<char>, Seq<char>>,
    after_body: Map<Seq<char>, Seq<char>>,
    locals: Seq<(Seq<char>, Option<Seq<char>>)>,
)
    requires
        names_distinct(locals),
        forall|i: int, j: int| 0 <= i < locals.len() && 0 <= j < frame_names().len() ==> (#[trigger] locals[i]).0 != #[trigger] frame_names()[j],
    ensures
        ({
            let frame = frame_names().map_values(
                |n: Seq<char>| (n, if before.contains_key(n) { Some(before[n]) } else { None }),
            );
            let restored = restore_vars(after_body, frame + locals);
            forall|j: int|
                0 <= j < frame_names().len() ==> restored.contains_key(#[trigger] frame_names()[j]) == before.contains_key(
                    frame_names()[j],
                ) && (before.contains_key(frame_names()[j]) ==> restored[frame_names()[j]] == before[frame_names()[j]])
        }),
{
    frame_names_distinct();
    let frame = frame_names().map_values(
        |n: Seq<char>| (n, if before.contains_key(n) { Some(before[n]) } else { None }),
    );
    let all = frame + locals;
    assert(names_distinct(all)) by {
        assert forall|i: int, j: int| 0 <= i < j < all.len() implies (#[trigger] all[i]).0 != (#[trigger] all[j]).0 by {
            if j < 11 {
                assert(all[i].0 == frame_names()[i] && all[j].0 == frame_names()[j]);
            } else if i < 11 {
                assert(all[i].0 == frame_names()[i]);
                assert(all[j] == locals[j - 11]);
            } else {
                assert(all[i] == locals[i - 11] && all[j] == locals[j - 11]);
            }
        }
    }
    restore_puts_back(after_body, all);
    assert forall|j: int| 0 <= j < frame_names().len() implies restore_vars(after_body, all).contains_key(
        #[trigger] frame_names()[j],
    ) == before.contains_key(frame_names()[j]) && (before.contains_key(frame_names()[j]) ==> restore_vars(
        after_body,
        all,
    )[frame_names()[j]] == before[frame_names()[j]]) by {
        assert(all[j] == frame[j]);
    }
}

/// The frame a call saves followed by locals with other, distinct names
/// has distinct names.
proof fn lemma_frame_and_locals_distinct(
    frame: Seq<(Seq<char>, Option<Seq<char>>)>,
    locals: Seq<(Seq<char>, Option<Seq<char>>)>,
)
    requires
        frame.len() == frame_names().len(),
        forall|j: int| 0 <= j < frame.len() ==> (#[trigger] frame[j]).0 == frame_names()[j],
        names_distinct(locals),
        forall|i: int, j: int| 0 <= i < locals.len() && 0 <= j < frame_names().len() ==> (#[trigger] locals[i]).0 != #[trigger] frame_names()[j],
    ensures
        names_distinct(frame + locals),
{
    frame_names_distinct();
    let all = frame + locals;
    let n = frame.len() as int;
    assert forall|i: int, j: int| 0 <= i < j < all.len() implies (#[trigger] all[i]).0 != (#[trigger] all[j]).0 by {
        if j < n {
            assert(all[i].0 == frame_names()[i] && all[j].0 == frame_names()[j]);
        } else if i < n {
            assert(all[i].0 == frame_names()[i]);
            assert(all[j] == locals[j - n]);
        } else {
            assert(all[i] == locals[i - n] && all[j] == locals[j - n]);
        }
    }
}

/// A whole function call gives the caller its state back: the stack of
/// local frames is as before, `@`, `#` and `1` to `9` have their values (or
/// are unset) as before, each variable the body declared local gets back the
/// value it had when first declared (or is unset), and the call's status is
/// that of `return`, else the last status. Between entering (`sh0` to `sh1`)
/// and leaving (`sh2` to `sh3`) the body may change any variable, and its
/// local declarations add `locals` (distinct names, none of the saved
/// positional names) to the call's frame.
pub proof fn function_call_round_trip(
    sh0: Shell,
    sh1: Shell,
    sh2: Shell,
    sh3: Shell,
    args: Seq<Seq<char>>,
    locals: Seq<(Seq<char>, Option<Seq<char>>)>,
    flow: Flow,
    r: i32,
)
    requires
        entered(sh0, sh1, args),
        sh2.local_stack@.len() == sh1.local_stack@.len(),
        sh2.local_stack@.drop_last() == sh1.local_stack@.drop_last(),
        saved_view(sh2.local_stack@.last()@) == saved_view(sh1.local_stack@.last()@) + locals,
        names_distinct(locals),
        forall|i: int, j: int| 0 <= i < locals.len() && 0 <= j < frame_names().len() ==> (#[trigger] locals[i]).0 != #[trigger] frame_names()[j],
        left(sh2, sh3, flow, r),
    ensures
        sh3.local_stack@ == sh0.local_stack@,
        forall|j: int|
            0 <= j < frame_names().len() ==> text_map(sh3.vars@).contains_key(#[trigger] frame_names()[j]) == text_map(
                sh0.vars@,
            ).contains_key(frame_names()[j]) && (text_map(sh0.vars@).contains_key(frame_names()[j]) ==> text_map(
                sh3.vars@,
            )[frame_names()[j]] == text_map(sh0.vars@)[frame_names()[j]]),
        forall|i: int|
            0 <= i < locals.len() ==> match (#[trigger] locals[i]).1 {
                Some(v) => text_map(sh3.vars@).contains_key(locals[i].0) && text_map(sh3.vars@)[locals[i].0] == v,
                None => !text_map(sh3.vars@).contains_key(locals[i].0),
            },
        r == match flow {
            Flow::Return(c) => c,
            _ => sh2.last_status,
        },
{
    let before = text_map(sh0.vars@);
    let frame = frame_names().map_values(
        |n: Seq<char>| (n, if before.contains_key(n) { Some(before[n]) } else { None }),
    );
    assert(saved_view(sh1.local_stack@.last()@) =~= frame);
    assert(sh2.local_stack@.len() > 0);
    let all = frame + locals;
    assert(saved_view(sh2.local_stack@.last()@) == all);
    frame_names_distinct();
    lemma_frame_and_locals_distinct(frame, locals);
    call_restores_positional(before, text_map(sh2.vars@), locals);
    restore_puts_back(text_map(sh2.vars@), all);
    assert forall|i: int| 0 <= i < locals.len() implies match (#[trigger] locals[i]).1 {
        Some(v) => text_map(sh3.vars@).contains_key(locals[i].0) && text_map(sh3.vars@)[locals[i].0] == v,
        None => !text_map(sh3.vars@).contains_key(locals[i].0),
    } by {
        assert(all[frame.len() + i] == locals[i]);
    }
}

/// Whether the next command of an and-or list is skipped, after a command
/// that ended with `prev_status` and the separator `sep`.
pub open spec fn skip_next_spec(sep: Sep, prev_status: i32) -> bool {
    match sep {
        Sep::And => prev_status != 0,
        Sep::Or => prev_status == 0,
        Sep::Sequential => false,
    }
}

/// What `str::parse::<i32>` gives.
pub open spec fn parse_i32_spec(s: Seq<char>) -> Option<int> {
    match parse_i64_spec(s) {
        Some(v) => if i32::MIN <= v <= i32::MAX { Some(v) } else { None },
        None => None,
    }
}

/// `str::parse::<i32>`.
pub fn parse_i32(s: &[char]) -> (r: Option<i32>)
    ensures
        match r {
            Some(v) => parse_i32_spec(s@) == Some(v as int),
            None => parse_i32_spec(s@) is None,
        },
{
    match parse_i64(s) {
        Some(v) => if -0x8000_0000i64 <= v && v <= 0x7fff_ffffi64 { Some(v as i32) } else { None },
        None => None,
    }
}

/// The status of `return WORD`: the expanded word, trimmed, as a number; 0
/// when it is not one.
pub fn return_code(text: &str) -> (r: i32)
    ensures
        r == match parse_i32_spec(trim_spec(text@)) {
            Some(v) => v,
            None => 0,
        },
{
    let cs = chars_of(text);
    let t = trim(cs.as_slice());
    match parse_i32(t.as_slice()) {
        Some(v) => v,
        None => 0,
    }
}

/// Whether the next command of an and-or list is skipped.
pub fn skip_next(sep: Sep, prev_status: i32) -> (r: bool)
    ensures
        r == skip_next_spec(sep, prev_status),
{
    match sep {
        Sep::And => prev_status != 0,
        Sep::Or => prev_status == 0,
        Sep::Sequential => false,
    }
}

/// The status of a pipeline, from that of its last command.
pub fn pipeline_status(status: i32, negate: bool) -> (r: i32)
    ensures
        r == if negate { if status == 0 { 1i32 } else { 0i32 } } else { status },
{
    if negate {
        if status == 0 { 1 } else { 0 }
    } else {
        status
    }
}

/// `sh1` is `sh0` on entry to a function called with `args`: `@`, `#` and
/// `1` to `9` are saved in a new frame of local variables, and the
/// positional parameters are set.
pub open spec fn entered(sh0: Shell, sh1: Shell, args: Seq<Seq<char>>) -> bool {
    &&& sh1.local_stack@.len() == sh0.local_stack@.len() + 1
    &&& sh1.local_stack@.drop_last() == sh0.local_stack@
    &&& saved_view(sh1.local_stack@.last()@) == frame_names().map_values(
        |n: Seq<char>| (n, if text_map(sh0.vars@).contains_key(n) {
            Some(text_map(sh0.vars@)[n])
        } else {
            None
        }),
    )
    &&& text_map(sh1.vars@) == call_vars(text_map(sh0.vars@), args)
    &&& sh1 == (Shell { vars: sh1.vars, local_stack: sh1.local_stack, ..sh0 })
}

/// `sh1` is `sh0` after a function call ended with `flow`, and `r` the
/// call's status: the innermost frame of local variables is restored.
pub open spec fn left(sh0: Shell, sh1: Shell, flow: Flow, r: i32) -> bool {
    &&& r == match flow {
        Flow::Return(code) => code,
        _ => sh0.last_status,
    }
    &&& sh0.local_stack@.len() > 0 ==> {
        &&& sh1.local_stack@ == sh0.local_stack@.drop_last()
        &&& text_map(sh1.vars@) == restore_vars(text_map(sh0.vars@), saved_view(sh0.local_stack@.last()@))
    }
    &&& sh0.local_stack@.len() == 0 ==> sh1.local_stack@.len() == 0 && text_map(sh1.vars@) == text_map(sh0.vars@)
    &&& sh1 == (Shell { vars: sh1.vars, local_stack: sh1.local_stack, ..sh0 })
}

impl Shell {
    /// Expands a word, with the outputs of its command substitutions known
    /// so far: the text, or the failure, or the next command whose output is
    /// needed.
    pub fn expand_word(&self, word: &Word, captured: &[String]) -> (r: ExpandStep)
        ensures
            expand_step_view(r) == expand_spec(*self, word_view(word@), captured@.map_values(|c: String| c@)),
    {
        let ghost parts = word_view(word@);
        let ghost caps = captured@.map_values(|c: String| c@);
        let mut acc: Vec<char> = Vec::new();
        let mut k: usize = 0;
        let mut i: usize = 0;
        while i < word.len()
            invariant
                i <= word@.len(),
                k <= captured@.len(),
                parts == word_view(word@),
                caps == captured@.map_values(|c: String| c@),
                expand_parts(*self, parts, i as int, caps, k as int, acc@) == expand_parts(
                    *self,
                    parts,
                    0,
                    caps,
                    0,
                    Seq::empty(),
                ),
            decreases word.len() - i,
        {
            match &word[i] {
                WordPart::Literal(s) => {
                    push_str(&mut acc, s.as_str());
                },
                WordPart::Var(n) => {
                    match self.get_var(n.as_str()) {
                        Some(v) => push_str(&mut acc, v.as_str()),
                        None => {},
                    }
                },
                WordPart::CmdSub(src) => {
                    if k < captured.len() {
                        let t = trim_trailing_newlines(captured[k].as_str());
                        push_str(&mut acc, t.as_str());
                        k = k + 1;
                    } else {
                        return ExpandStep::NeedsOutput(src.clone());
                    }
                },
                WordPart::Arith(src) => {
                    match eval_checked(src.as_str(), &self.vars) {
                        Some(Ok(v)) => {
                            let t = i64_to_string(v);
                            push_str(&mut acc, t.as_str());
                        },
                        Some(Err(m)) => {
                            return ExpandStep::Failed(m);
                        },
                        None => {
                            return ExpandStep::Overflow;
                        },
                    }
                },
            }
            i = i + 1;
        }
        ExpandStep::Text(string_from_chars(acc.as_slice()))
    }

    /// Sets the saved variables back, in order: a saved value is set, a
    /// name that was unset is removed.
    pub fn restore(&mut self, saved: Vec<(String, Option<String>)>)
        ensures
            text_map(final(self).vars@) == restore_vars(text_map(old(self).vars@), saved_view(saved@)),
            *final(self) == (Shell { vars: final(self).vars, ..*old(self) }),
    {
        let mut i: usize = 0;
        while i < saved.len()
            invariant
                i <= saved@.len(),
                *self == (Shell { vars: self.vars, ..*old(self) }),
                text_map(self.vars@) == restore_vars(
                    text_map(old(self).vars@),
                    saved_view(saved@).subrange(0, i as int),
                ),
            decreases saved.len() - i,
        {
            let name = saved[i].0.clone();
            proof {
                assert(saved_view(saved@).subrange(0, i + 1).drop_last() =~= saved_view(saved@).subrange(0, i as int));
            }
            match &saved[i].1 {
                Some(v) => {
                    let vc = v.clone();
                    proof {
                        lemma_text_map_insert(self.vars@, name@, vc);
                    }
                    self.vars.insert(name, vc);
                },
                None => {
                    proof {
                        lemma_text_map_remove(self.vars@, name@);
                    }
                    self.vars.remove(name.as_str());
                },
            }
            i = i + 1;
        }
        assert(saved_view(saved@).subrange(0, saved@.len() as int) =~= saved_view(saved@));
    }

    /// Starts a function call: saves `@`, `#` and `1` to `9` in a new frame
    /// of local variables, and sets the positional parameters to `args`.
    pub fn enter_function(&mut self, args: &[String])
        ensures
            entered(*old(self), *final(self), args@.map_values(|a: String| a@)),
    {
        let ghost m0 = text_map(self.vars@);
        let ghost want = frame_names().map_values(
            |n: Seq<char>| (n, if m0.contains_key(n) { Some(m0[n]) } else { None }),
        );
        let mut frame: Vec<(String, Option<String>)> = Vec::new();
        let mut names: Vec<String> = Vec::new();
        names.push("@".to_string());
        names.push("#".to_string());
        let mut d: usize = 1;
        while d <= 9
            invariant
                1 <= d <= 10,
                names@.len() == d + 1,
                forall|j: int| 0 <= j < names@.len() ==> (#[trigger] names@[j])@ == frame_names()[j],
            decreases 10 - d,
        {
            names.push(usize_to_string(d));
            d = d + 1;
        }
        let mut j: usize = 0;
        assert(frame_names().len() == 11);
        assert(want.len() == 11);
        while j < names.len()
            invariant
                j <= names@.len(),
                names@.len() == 11,
                want.len() == 11,
                want == frame_names().map_values(
                    |n: Seq<char>| (n, if m0.contains_key(n) { Some(m0[n]) } else { None }),
                ),
                m0 == text_map(self.vars@),
                forall|a: int| 0 <= a < names@.len() ==> (#[trigger] names@[a])@ == frame_names()[a],
                saved_view(frame@) == want.subrange(0, j as int),
            decreases names.len() - j,
        {
            let old_value = match self.vars.get(names[j].as_str()) {
                Some(v) => Some(v.clone()),
                None => None,
            };
            let ghost before = frame@;
            let ghost n = names@[j as int]@;
            assert(n == frame_names()[j as int]);
            assert(want[j as int] == (n, if m0.contains_key(n) { Some(m0[n]) } else { None::<Seq<char>> }));
            assert(opt_text(old_value) == (if m0.contains_key(n) { Some(m0[n]) } else { None::<Seq<char>> }));
            frame.push((names[j].clone(), old_value));
            assert(saved_view(frame@) =~= saved_view(before).push((names@[j as int]@, opt_text(old_value))));
            assert(want.subrange(0, j + 1) =~= want.subrange(0, j as int).push(want[j as int]));
            j = j + 1;
            assert(saved_view(frame@) =~= want.subrange(0, j as int));
        }
        assert(want.subrange(0, 11) =~= want);
        let ghost argv = args@.map_values(|a: String| a@);
        let mut i: usize = 0;
        while i < args.len()
            invariant
                i <= args@.len(),
                argv == args@.map_values(|a: String| a@),
                set_positional(text_map(self.vars@), argv, i as int) == set_positional(m0, argv, 0),
                *self == (Shell { vars: self.vars, ..*old(self) }),
            decreases args.len() - i,
        {
            let name = usize_to_string(i + 1);
            proof {
                lemma_text_map_insert(self.vars@, name@, args@[i as int]);
            }
            self.vars.insert(name, args[i].clone());
            i = i + 1;
        }
        let joined = join_with_spaces(args);
        proof {
            lemma_text_map_insert(self.vars@, "@"@, joined);
        }
        self.vars.insert("@".to_string(), joined);
        let count = usize_to_string(args.len());
        proof {
            lemma_text_map_insert(self.vars@, "#"@, count);
        }
        self.vars.insert("#".to_string(), count);
        self.local_stack.push(frame);
        proof {
            let want2 = frame_names().map_values(
                |n: Seq<char>| (n, if text_map(old(self).vars@).contains_key(n) {
                    Some(text_map(old(self).vars@)[n])
                } else {
                    None
                }),
            );
            assert(want =~= want2);
            assert(self.local_stack@.drop_last() =~= old(self).local_stack@);
        }
    }

    /// Ends a function call: restores the variables of the innermost frame
    /// and gives the call's status (that of `return`, or the last status).
    pub fn leave_function(&mut self, flow: Flow) -> (r: i32)
        ensures
            left(*old(self), *final(self), flow, r),
    {
        let frame = match self.local_stack.pop() {
            Some(f) => f,
            None => Vec::new(),
        };
        self.restore(frame);
        match flow {
            Flow::Return(code) => code,
            _ => self.last_status,
        }
    }

    /// `local NAME[=VALUE]`: records the variable's value in the innermost
    /// call frame (unless it is there already) and sets it.
    pub fn declare_local(&mut self, name: &str, value: Option<String>) -> (r: Result<(), String>)
        ensures
            old(self).local_stack@.len() == 0 ==> r is Err && r->Err_0@
                == "xsh: local: can only be used inside a function"@ && final(self).vars@ == old(self).vars@
                && final(self).local_stack@ == old(self).local_stack@,
            old(self).local_stack@.len() > 0 ==> {
                let top = old(self).local_stack@.last()@;
                let recorded = exists|j: int| 0 <= j < top.len() && (#[trigger] top[j]).0@ == name@;
                let m0 = text_map(old(self).vars@);
                &&& r is Ok
                &&& text_map(final(self).vars@) == m0.insert(name@, match value {
                    Some(v) => v@,
                    None => Seq::empty(),
                })
                &&& final(self).local_stack@.drop_last() == old(self).local_stack@.drop_last()
                &&& final(self).local_stack@.len() == old(self).local_stack@.len()
                &&& saved_view(final(self).local_stack@.last()@) == if recorded {
                    saved_view(top)
                } else {
                    saved_view(top).push((name@, if m0.contains_key(name@) { Some(m0[name@]) } else { None }))
                }
            },
    {
        let mut frame = match self.local_stack.pop() {
            Some(f) => f,
            None => {
                return Err("xsh: local: can only be used inside a function".to_string());
            },
        };
        let ghost top = frame@;
        let mut recorded = false;
        let mut j: usize = 0;
        while j < frame.len()
            invariant
                j <= frame@.len(),
                frame@ == top,
                recorded == exists|a: int| 0 <= a < j && (#[trigger] top[a]).0@ == name@,
            decreases frame.len() - j,
        {
            if str_eq(frame[j].0.as_str(), name) {
                recorded = true;
            }
            j = j + 1;
        }
        if !recorded {
            let prev = match self.vars.get(name) {
                Some(v) => Some(v.clone()),
                None => None,
            };
            let n = name.to_string();
            let ghost before = frame@;
            frame.push((n, prev));
            assert(saved_view(frame@) =~= saved_view(before).push((name@, opt_text(prev))));
        }
        self.local_stack.push(frame);
        let v = match value {
            Some(v) => v,
            None => String::new(),
        };
        let n2 = name.to_string();
        proof {
            lemma_text_map_insert(self.vars@, name@, v);
        }
        self.vars.insert(n2, v);
        Ok(())
    }
}

/// A command's output loses all its trailing line feeds and nothing else.
pub proof fn trailing_newlines_are_stripped(t: Seq<char>, n: nat)
    requires
        t.len() == 0 || t.last() != '\n',
    ensures
        strip_trailing_newlines(t + Seq::new(n, |i: int| '\n')) == t,
    decreases n,
{
    let u = t + Seq::new(n, |i: int| '\n');
    if n > 0 {
        assert(u.drop_last() =~= t + Seq::new((n - 1) as nat, |i: int| '\n'));
        trailing_newlines_are_stripped(t, (n - 1) as nat);
    } else {
        assert(u =~= t);
    }
}

/// The parts of a word expand in order: literal text as it stands, a
/// command substitution to its output without trailing line feeds (once
/// the output is known; until then the command is asked for), an
/// arithmetic expansion to the decimal text of its value.
pub proof fn word_parts_expand_in_order(sh: Shell, a: Seq<char>, b: Seq<char>, src: Seq<char>, out: Seq<char>)
    ensures
        expand_spec(sh, seq![SpecWordPart::Literal(a), SpecWordPart::Literal(b)], Seq::empty()) == Expansion::Text(
            a + b,
        ),
        expand_spec(sh, seq![SpecWordPart::Literal(a), SpecWordPart::CmdSub(src)], seq![out]) == Expansion::Text(
            a + strip_trailing_newlines(out),
        ),
        expand_spec(sh, seq![SpecWordPart::Literal(a), SpecWordPart::CmdSub(src)], Seq::empty())
            == Expansion::NeedsOutput(src),
        arith_spec(src, text_map(sh.vars@)) matches Ok(v) ==> expand_spec(
            sh,
            seq![SpecWordPart::Arith(src)],
            Seq::empty(),
        ) == Expansion::Text(int_to_dec(v)),
{
    lemma_expand_literals(sh, a, b);
    lemma_expand_cmdsub(sh, a, src, out);
    lemma_expand_arith(sh, src);
}

proof fn lemma_expand_literals(sh: Shell, a: Seq<char>, b: Seq<char>)
    ensures
        expand_spec(sh, seq![SpecWordPart::Literal(a), SpecWordPart::Literal(b)], Seq::empty()) == Expansion::Text(
            a + b,
        ),
{
    let e: Seq<char> = Seq::empty();
    let w1 = seq![SpecWordPart::Literal(a), SpecWordPart::Literal(b)];
    assert(w1[0] == SpecWordPart::Literal(a) && w1[1] == SpecWordPart::Literal(b));
    assert(expand_parts(sh, w1, 2, Seq::empty(), 0, e + a + b) == Expansion::Text(e + a + b));
    assert(expand_parts(sh, w1, 1, Seq::empty(), 0, e + a) == Expansion::Text(e + a + b));
    assert(expand_parts(sh, w1, 0, Seq::empty(), 0, e) == Expansion::Text(e + a + b));
    assert(e + a + b =~= a + b);
}

proof fn lemma_expand_cmdsub(sh: Shell, a: Seq<char>, src: Seq<char>, out: Seq<char>)
    ensures
        expand_spec(sh, seq![SpecWordPart::Literal(a), SpecWordPart::CmdSub(src)], seq![out]) == Expansion::Text(
            a + strip_trailing_newlines(out),
        ),
        expand_spec(sh, seq![SpecWordPart::Literal(a), SpecWordPart::CmdSub(src)], Seq::empty())
            == Expansion::NeedsOutput(src),
{
    let e: Seq<char> = Seq::empty();
    let w2 = seq![SpecWordPart::Literal(a), SpecWordPart::CmdSub(src)];
    let c = seq![out];
    assert(w2[0] == SpecWordPart::Literal(a) && w2[1] == SpecWordPart::CmdSub(src));
    assert(expand_parts(sh, w2, 2, c, 1, e + a + strip_trailing_newlines(out)) == Expansion::Text(
        e + a + strip_trailing_newlines(out),
    ));
    assert(expand_parts(sh, w2, 1, c, 0, e + a) == Expansion::Text(e + a + strip_trailing_newlines(out)));
    assert(expand_parts(sh, w2, 0, c, 0, e) == Expansion::Text(e + a + strip_trailing_newlines(out)));
    assert(e + a + strip_trailing_newlines(out) =~= a + strip_trailing_newlines(out));
    assert(expand_parts(sh, w2, 1, Seq::empty(), 0, e + a) == Expansion::NeedsOutput(src));
}

proof fn lemma_expand_arith(sh: Shell, src: Seq<char>)
    ensures
        arith_spec(src, text_map(sh.vars@)) matches Ok(v) ==> expand_spec(
            sh,
            seq![SpecWordPart::Arith(src)],
            Seq::empty(),
        ) == Expansion::Text(int_to_dec(v)),
{
    let e: Seq<char> = Seq::empty();
    let w3 = seq![SpecWordPart::Arith(src)];
    let r = arith_spec(src, text_map(sh.vars@));
    if let Ok(v) = r {
        assert(expand_parts(sh, w3, 1, Seq::empty(), 0, e + int_to_dec(v)) == Expansion::Text(e + int_to_dec(v)));
        assert(e + int_to_dec(v) =~= int_to_dec(v));
    }
}

} // verus!
