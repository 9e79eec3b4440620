//! What the interactive loop decides: the prompt's text, whether a line
//! needs a continuation, and the parse of the text read so far.

use vstd::prelude::*;
use crate::ast::Node;
use crate::lexer::{lemma_tokens_end_with_eof, tokenize_spec, tokens_result_view, Lexer};
use crate::parser::{first_index, parse, parse_spec, program_result};
use crate::state::Shell;
use crate::text::{char_alphabetic, char_alphanumeric, chars_of, contains_sub, first_occurrence, is_alphabetic, is_alphanumeric, string_from_chars};

verus! {

broadcast use vstd::string::group_string_axioms;

/// The value of a variable in a prompt: empty when it is unset.
pub open spec fn var_text(sh: Shell, name: Seq<char>) -> Seq<char> {
    match sh.var_spec(name) {
        Some(v) => v,
        None => Seq::empty(),
    }
}

/// The end of the run of letters, digits and `_` that starts at `i`.
pub open spec fn name_run_end(s: Seq<char>, i: int) -> int
    decreases s.len() - i,
{
    if i < 0 || i >= s.len() {
        i
    } else if char_alphanumeric(s[i]) || s[i] == '_' {
        name_run_end(s, i + 1)
    } else {
        i
    }
}

proof fn lemma_name_run_end(s: Seq<char>, i: int)
    requires
        0 <= i <= s.len(),
    ensures
        i <= name_run_end(s, i) <= s.len(),
    decreases s.len() - i,
{
    if i < s.len() && (char_alphanumeric(s[i]) || s[i] == '_') {
        lemma_name_run_end(s, i + 1);
    }
}

proof fn lemma_first_index_range(s: Seq<char>, i: int, c: char)
    requires
        0 <= i,
    ensures
        match first_index(s, i, c) {
            Some(e) => i <= e < s.len() && s[e] == c,
            None => true,
        },
    decreases s.len() - i,
{
    if i < s.len() && s[i] != c {
        lemma_first_index_range(s, i + 1, c);
    }
}

/// The prompt made from the template `s`, from index `i` on: `${NAME}` and
/// `$NAME` (a letter or `_`, then letters, digits and `_`) are replaced by
/// the variable's value; every other character stands for itself.
pub open spec fn prompt_from(sh: Shell, s: Seq<char>, i: int) -> Seq<char>
    decreases s.len() - i,
{
    if i < 0 || i >= s.len() {
        Seq::empty()
    } else if s[i] == '$' && i + 1 < s.len() && s[i + 1] == '{' {
        match first_index(s, i + 2, '}') {
            Some(e) => if i + 2 <= e < s.len() {
                var_text(sh, s.subrange(i + 2, e)) + prompt_from(sh, s, e + 1)
            } else {
                Seq::empty()
            },
            None => var_text(sh, s.subrange(i + 2, s.len() as int)),
        }
    } else if s[i] == '$' && i + 1 < s.len() && (char_alphabetic(s[i + 1]) || s[i + 1] == '_') {
        let e = name_run_end(s, i + 1);
        if i + 1 <= e <= s.len() {
            var_text(sh, s.subrange(i + 1, e)) + prompt_from(sh, s, e)
        } else {
            Seq::empty()
        }
    } else {
        seq![s[i]] + prompt_from(sh, s, i + 1)
    }
}

/// Appends `v` to `acc`.
fn push_chars(acc: &mut Vec<char>, v: &str)
    ensures
        final(acc)@ == old(acc)@ + v@,
{
    let cs = chars_of(v);
    let ghost a0 = acc@;
    let mut i: usize = 0;
    while i < cs.len()
        invariant
            i <= cs@.len(),
            acc@ == a0 + cs@.subrange(0, i as int),
        decreases cs.len() - i,
    {
        acc.push(cs[i]);
        i = i + 1;
        assert(acc@ =~= a0 + cs@.subrange(0, i as int));
    }
    assert(cs@.subrange(0, cs@.len() as int) =~= cs@);
}

/// The characters of `s` from `a` to `b`, as a string.
fn text_between(s: &Vec<char>, a: usize, b: usize) -> (r: String)
    requires
        a <= b <= s@.len(),
    ensures
        r@ == s@.subrange(a as int, b as int),
{
    let mut v: Vec<char> = Vec::new();
    let mut i: usize = a;
    while i < b
        invariant
            a <= i <= b <= s@.len(),
            v@ == s@.subrange(a as int, i as int),
        decreases b - i,
    {
        v.push(s[i]);
        i = i + 1;
        assert(v@ =~= s@.subrange(a as int, i as int));
    }
    string_from_chars(v.as_slice())
}

/// Appends the value of the variable `name` (nothing when it is unset).
fn push_var(acc: &mut Vec<char>, shell: &Shell, name: &str)
    ensures
        final(acc)@ == old(acc)@ + var_text(*shell, name@),
{
    match shell.get_var(name) {
        Some(v) => push_chars(acc, v.as_str()),
        None => {
            assert(old(acc)@ + var_text(*shell, name@) =~= old(acc)@);
        },
    }
}

/// The prompt made from a template.
pub fn expand_prompt(shell: &Shell, tpl: &str) -> (r: String)
    ensures
        r@ == prompt_from(*shell, tpl@, 0),
{
    let cs = chars_of(tpl);
    let ghost s = cs@;
    let n = cs.len();
    let mut acc: Vec<char> = Vec::new();
    let mut i: usize = 0;
    while i < n
        invariant
            i <= n,
            n == s.len(),
            s == cs@,
            s == tpl@,
            acc@ + prompt_from(*shell, s, i as int) == prompt_from(*shell, s, 0),
        decreases n - i,
    {
        let ghost a0 = acc@;
        if cs[i] == '$' && n - i > 1 && cs[i + 1] == '{' {
            let mut j: usize = i + 2;
            proof {
                lemma_first_index_range(s, i + 2, '}');
            }
            while j < n && cs[j] != '}'
                invariant
                    i + 2 <= j <= n,
                    n == s.len(),
                    s == cs@,
                    first_index(s, j as int, '}') == first_index(s, i + 2, '}'),
                decreases n - j,
            {
                j = j + 1;
            }
            let name = text_between(&cs, i + 2, j);
            push_var(&mut acc, shell, name.as_str());
            if j < n {
                assert(acc@ + prompt_from(*shell, s, j + 1) =~= a0 + prompt_from(*shell, s, i as int));
                i = j + 1;
            } else {
                assert(acc@ + prompt_from(*shell, s, n as int) =~= a0 + prompt_from(*shell, s, i as int));
                i = n;
            }
        } else if cs[i] == '$' && n - i > 1 && (is_alphabetic(cs[i + 1]) || cs[i + 1] == '_') {
            let mut j: usize = i + 1;
            proof {
                lemma_name_run_end(s, i + 1);
            }
            while j < n && (is_alphanumeric(cs[j]) || cs[j] == '_')
                invariant
                    i + 1 <= j <= n,
                    n == s.len(),
                    s == cs@,
                    name_run_end(s, j as int) == name_run_end(s, i + 1),
                decreases n - j,
            {
                j = j + 1;
            }
            let name = text_between(&cs, i + 1, j);
            push_var(&mut acc, shell, name.as_str());
            assert(acc@ + prompt_from(*shell, s, j as int) =~= a0 + prompt_from(*shell, s, i as int));
            i = j;
        } else {
            acc.push(cs[i]);
            assert(acc@ + prompt_from(*shell, s, i + 1) =~= a0 + prompt_from(*shell, s, i as int));
            i = i + 1;
        }
    }
    assert(acc@ =~= prompt_from(*shell, s, 0));
    string_from_chars(acc.as_slice())
}

/// `t` occurs somewhere in `s`.
pub open spec fn has_text(s: Seq<char>, t: Seq<char>) -> bool {
    first_occurrence(s, t, 0) is Some
}

/// A parse error that more input could mend: an unfinished construct.
pub open spec fn incomplete(e: Seq<char>) -> bool {
    has_text(e, "expected 'fi'"@) || has_text(e, "expected 'then'"@) || has_text(e, "expected 'do'"@)
        || has_text(e, "expected 'done'"@) || has_text(e, "expected '}'"@) || has_text(e, "expected word"@)
        || has_text(e, "unterminated"@) || has_text(e, "expected command"@) || has_text(
        e,
        "syntax error near token 'Eof'"@,
    )
}

/// Whether the parse error `err` asks for another line of input.
pub fn needs_more_input(err: &str) -> (r: bool)
    ensures
        r == incomplete(err@),
{
    contains_sub(err, "expected 'fi'") || contains_sub(err, "expected 'then'") || contains_sub(err, "expected 'do'")
        || contains_sub(err, "expected 'done'") || contains_sub(err, "expected '}'") || contains_sub(
        err,
        "expected word",
    ) || contains_sub(err, "unterminated") || contains_sub(err, "expected command") || contains_sub(
        err,
        "syntax error near token 'Eof'",
    )
}

/// The statements of a source text: its tokens, parsed.
pub open spec fn source_spec(src: Seq<char>) -> Result<Seq<crate::ast::SpecNode>, Seq<char>> {
    match tokenize_spec(src) {
        Ok(ts) => parse_spec(ts),
        Err(e) => Err(e),
    }
}

/// Splits a source text into tokens and parses them.
pub fn try_parse(src: &str) -> (r: Result<Vec<Node>, String>)
    ensures
        program_result(r) == source_spec(src@),
{
    let lx = Lexer::new(src);
    match lx.tokenize() {
        Ok(tokens) => {
            proof {
                lemma_tokens_end_with_eof(src@, 0, Seq::empty());
            }
            parse(tokens)
        },
        Err(e) => Err(e),
    }
}

proof fn lemma_prompt_literal(sh: Shell, s: Seq<char>, i: int)
    requires
        0 <= i <= s.len(),
        !s.contains('$'),
    ensures
        prompt_from(sh, s, i) == s.subrange(i, s.len() as int),
    decreases s.len() - i,
{
    if i < s.len() {
        assert(s[i] != '$') by {
            if s[i] == '$' {
                assert(s.contains('$'));
            }
        }
        lemma_prompt_literal(sh, s, i + 1);
        assert(s.subrange(i, s.len() as int) =~= seq![s[i]] + s.subrange(i + 1, s.len() as int));
    } else {
        assert(s.subrange(i, s.len() as int) =~= Seq::<char>::empty());
    }
}

/// A prompt template without `$` is shown as it is.
pub proof fn prompt_without_dollar_is_unchanged(sh: Shell, tpl: Seq<char>)
    requires
        !tpl.contains('$'),
    ensures
        prompt_from(sh, tpl, 0) == tpl,
{
    lemma_prompt_literal(sh, tpl, 0);
    assert(tpl.subrange(0, tpl.len() as int) =~= tpl);
}

proof fn lemma_first_index_at(s: Seq<char>, i: int, e: int, c: char)
    requires
        0 <= i <= e < s.len(),
        forall|t: int| i <= t < e ==> #[trigger] s[t] != c,
        s[e] == c,
    ensures
        first_index(s, i, c) == Some(e),
    decreases e - i,
{
    if i < e {
        lemma_first_index_at(s, i + 1, e, c);
    }
}

/// Text with no `$` from `i` on is shown as it stands.
proof fn lemma_prompt_plain_from(sh: Shell, s: Seq<char>, i: int)
    requires
        0 <= i <= s.len(),
        forall|t: int| i <= t < s.len() ==> #[trigger] s[t] != '$',
    ensures
        prompt_from(sh, s, i) == s.subrange(i, s.len() as int),
    decreases s.len() - i,
{
    if i < s.len() {
        assert(s[i] != '$');
        lemma_prompt_plain_from(sh, s, i + 1);
        assert(s.subrange(i, s.len() as int) =~= seq![s[i]] + s.subrange(i + 1, s.len() as int));
    } else {
        assert(s.subrange(i, s.len() as int) =~= Seq::<char>::empty());
    }
}

proof fn lemma_name_run_to_end(s: Seq<char>, i: int)
    requires
        0 <= i <= s.len(),
        forall|t: int| i <= t < s.len() ==> char_alphanumeric(#[trigger] s[t]) || s[t] == '_',
    ensures
        name_run_end(s, i) == s.len(),
    decreases s.len() - i,
{
    if i < s.len() {
        lemma_name_run_to_end(s, i + 1);
    }
}

/// In a prompt, `${NAME}` and `$NAME` show the value of the variable
/// (nothing when it is unset), and text after a variable is shown as it
/// stands.
pub proof fn prompt_shows_variables(sh: Shell, n: Seq<char>, rest: Seq<char>)
    ensures
        !n.contains('}') && !rest.contains('$') ==> prompt_from(sh, seq!['$', '{'] + n + seq!['}'] + rest, 0) == var_text(
            sh,
            n,
        ) + rest,
        n.len() > 0 && n[0] != '{' && (char_alphabetic(n[0]) || n[0] == '_') && (forall|t: int|
            0 <= t < n.len() ==> char_alphanumeric(#[trigger] n[t]) || n[t] == '_') ==> prompt_from(
            sh,
            seq!['$'] + n,
            0,
        ) == var_text(sh, n),
{
    if !n.contains('}') && !rest.contains('$') {
        let s = seq!['$', '{'] + n + seq!['}'] + rest;
        let e = n.len() + 2int;
        assert forall|t: int| 2 <= t < e implies #[trigger] s[t] != '}' by {
            assert(s[t] == n[t - 2]);
            if s[t] == '}' {
                assert(n.contains('}'));
            }
        }
        lemma_first_index_at(s, 2, e, '}');
        assert(s.subrange(2, e) =~= n);
        assert(s.subrange(e + 1, s.len() as int) =~= rest);
        assert forall|t: int| e + 1 <= t < s.len() implies #[trigger] s[t] != '$' by {
            assert(s[t] == rest[t - e - 1]);
            if s[t] == '$' {
                assert(rest.contains('$'));
            }
        }
        lemma_prompt_plain_from(sh, s, e + 1);
        assert(s[0] == '$' && s[1] == '{');
    }
    if n.len() > 0 && n[0] != '{' && (char_alphabetic(n[0]) || n[0] == '_') && (forall|t: int|
        0 <= t < n.len() ==> char_alphanumeric(#[trigger] n[t]) || n[t] == '_') {
        let s = seq!['$'] + n;
        assert forall|t: int| 1 <= t < s.len() implies char_alphanumeric(#[trigger] s[t]) || s[t] == '_' by {
            assert(s[t] == n[t - 1]);
        }
        lemma_name_run_to_end(s, 1);
        assert(s.subrange(1, s.len() as int) =~= n);
        assert(s[1] == n[0]);
        assert(s[0] == '$');
        assert(prompt_from(sh, s, s.len() as int) == Seq::<char>::empty());
        assert(prompt_from(sh, s, 0) == var_text(sh, s.subrange(1, s.len() as int)) + prompt_from(sh, s, s.len() as int));
        assert(var_text(sh, n) + Seq::<char>::empty() =~= var_text(sh, n));
    }
}

} // verus!
