//! Importing the variables and aliases of another shell's start-up file:
//! the script that other shell runs, and the reading of what it prints.

use vstd::prelude::*;
use crate::builtins::{split_eq, split_of_assignment, split_once_eq, texts};
use crate::parser::first_index;
use crate::text::{
    char_white_space, chars_of, concat_str, find_sub, first_occurrence, lemma_trim_unchanged, string_from_chars, trim,
    trim_spec,
};

verus! {

broadcast use vstd::string::group_string_axioms;

/// The variables and aliases read from another shell.
pub struct Imported {
    pub vars: Vec<(String, String)>,
    pub aliases: Vec<(String, String)>,
}

/// Name/value pairs as texts.
pub open spec fn pairs_view(v: Seq<(String, String)>) -> Seq<(Seq<char>, Seq<char>)> {
    v.map_values(|p: (String, String)| (p.0@, p.1@))
}

/// The line printed before the environment.
pub open spec fn env_mark() -> Seq<char> {
    "===XSH_ENV_MARK==="@
}

/// The line printed before the aliases.
pub open spec fn alias_mark() -> Seq<char> {
    "===XSH_ALIAS_MARK==="@
}

/// The script the other shell runs: it sources the start-up file quietly,
/// then prints a mark, its environment, another mark and its aliases.
pub open spec fn script_spec(rc_path: Seq<char>) -> Seq<char> {
    "source '"@ + rc_path + "' >/dev/null 2>&1; echo "@ + env_mark() + "; env; echo "@ + alias_mark()
        + "; alias"@
}

/// The script the other shell runs for the start-up file at `rc_path`.
pub fn import_script(rc_path: &str) -> (r: String)
    ensures
        r@ == script_spec(rc_path@),
{
    let a = concat_str("source '", rc_path);
    let b = concat_str(a.as_str(), "' >/dev/null 2>&1; echo ");
    let c = concat_str(b.as_str(), "===XSH_ENV_MARK===");
    let d = concat_str(c.as_str(), "; env; echo ");
    let e = concat_str(d.as_str(), "===XSH_ALIAS_MARK===");
    let r = concat_str(e.as_str(), "; alias");
    assert(r@ =~= script_spec(rc_path@));
    r
}

/// A line without the `\r` of a `\r\n` ending.
pub open spec fn strip_cr(l: Seq<char>) -> Seq<char> {
    if l.len() > 0 && l.last() == '\r' {
        l.drop_last()
    } else {
        l
    }
}

/// The lines of `s` from `start` on (`str::lines`): split at each `\n`, a
/// `\r` before it dropped, no empty last line after a final `\n`.
pub open spec fn lines_from(s: Seq<char>, start: int) -> Seq<Seq<char>>
    decreases s.len() - start,
{
    if start < 0 || start >= s.len() {
        Seq::empty()
    } else {
        match first_index(s, start, '\n') {
            Some(e) => if start <= e < s.len() {
                seq![strip_cr(s.subrange(start, e))] + lines_from(s, e + 1)
            } else {
                Seq::empty()
            },
            None => seq![s.subrange(start, s.len() as int)],
        }
    }
}

/// The variables in the lines of `env`: `NAME=VALUE` with a name that is
/// not empty.
pub open spec fn env_pairs(lines: Seq<Seq<char>>) -> Seq<(Seq<char>, Seq<char>)>
    decreases lines.len(),
{
    if lines.len() == 0 {
        Seq::empty()
    } else {
        let rest = env_pairs(lines.drop_last());
        match split_eq(lines.last()) {
            Some((k, v)) => if k.len() > 0 {
                rest.push((k, v))
            } else {
                rest
            },
            None => rest,
        }
    }
}

/// A value without one pair of enclosing single or double quotes.
pub open spec fn unquote(v: Seq<char>) -> Seq<char> {
    if v.len() >= 2 && v[0] == '\'' && v.last() == '\'' {
        v.subrange(1, v.len() - 1)
    } else if v.len() >= 2 && v[0] == '"' && v.last() == '"' {
        v.subrange(1, v.len() - 1)
    } else {
        v
    }
}

/// The line without a leading `alias `.
pub open spec fn strip_alias_word(l: Seq<char>) -> Seq<char> {
    if l.len() >= 6 && l.subrange(0, 6) == "alias "@ {
        l.subrange(6, l.len() as int)
    } else {
        l
    }
}

/// The alias a line of `alias` output defines, if any.
pub open spec fn alias_entry(line: Seq<char>) -> Option<(Seq<char>, Seq<char>)> {
    match split_eq(strip_alias_word(trim_spec(line))) {
        Some((k, v)) => Some((k, unquote(trim_spec(v)))),
        None => None,
    }
}

/// The aliases in the lines of `alias` output.
pub open spec fn alias_pairs(lines: Seq<Seq<char>>) -> Seq<(Seq<char>, Seq<char>)>
    decreases lines.len(),
{
    if lines.len() == 0 {
        Seq::empty()
    } else {
        let rest = alias_pairs(lines.drop_last());
        match alias_entry(lines.last()) {
            Some(p) => rest.push(p),
            None => rest,
        }
    }
}

/// The marks come in order: when both are there, the alias mark starts
/// after the end of the environment mark.
pub open spec fn marks_ordered(raw: Seq<char>) -> bool {
    match (first_occurrence(raw, env_mark(), 0), first_occurrence(raw, alias_mark(), 0)) {
        (Some(a), Some(b)) => a + env_mark().len() <= b,
        _ => true,
    }
}

/// What the output of the script gives: the variables between the two
/// marks and the aliases after the second; nothing when a mark is missing.
pub open spec fn import_spec(raw: Seq<char>) -> Option<(Seq<(Seq<char>, Seq<char>)>, Seq<(Seq<char>, Seq<char>)>)> {
    match (first_occurrence(raw, env_mark(), 0), first_occurrence(raw, alias_mark(), 0)) {
        (Some(a), Some(b)) => Some(
            (
                env_pairs(lines_from(raw.subrange(a + env_mark().len(), b), 0)),
                alias_pairs(lines_from(raw.subrange(b + alias_mark().len(), raw.len() as int), 0)),
            ),
        ),
        _ => None,
    }
}

/// Whether the marks in the output come in order (the output can be read).
pub fn marks_in_order(raw: &str) -> (r: bool)
    ensures
        r == marks_ordered(raw@),
{
    match (find_sub(raw, "===XSH_ENV_MARK==="), find_sub(raw, "===XSH_ALIAS_MARK===")) {
        (Some(a), Some(b)) => {
            let len = chars_of("===XSH_ENV_MARK===").len();
            a <= b && len <= b - a
        },
        _ => true,
    }
}

/// The characters of `s` from `a` to `b`.
fn section(s: &Vec<char>, a: usize, b: usize) -> (r: Vec<char>)
    requires
        a <= b <= s@.len(),
    ensures
        r@ == s@.subrange(a as int, b as int),
{
    let mut v: Vec<char> = Vec::new();
    let mut i: usize = a;
    while i < b
        invariant
            a <= i <= b <= s@.len(),
            v@ == s@.subrange(a as int, i as int),
        decreases b - i,
    {
        v.push(s[i]);
        i = i + 1;
        assert(v@ =~= s@.subrange(a as int, i as int));
    }
    v
}

/// The lines of a text.
fn lines_of(s: &Vec<char>) -> (r: Vec<String>)
    ensures
        texts(r@) == lines_from(s@, 0),
{
    let n = s.len();
    let mut out: Vec<String> = Vec::new();
    let mut start: usize = 0;
    let mut i: usize = 0;
    while i < n
        invariant
            start <= i <= n,
            n == s@.len(),
            first_index(s@, i as int, '\n') == first_index(s@, start as int, '\n'),
            texts(out@) + lines_from(s@, start as int) == lines_from(s@, 0),
        decreases n - i,
    {
        if s[i] == '\n' {
            let mut e = i;
            if e > start && s[e - 1] == '\r' {
                e = e - 1;
            }
            let piece = section(s, start, e);
            let ghost before = out@;
            let ghost l = s@.subrange(start as int, i as int);
            assert(piece@ =~= strip_cr(l));
            assert(lines_from(s@, start as int) == seq![strip_cr(l)] + lines_from(s@, i + 1));
            out.push(string_from_chars(piece.as_slice()));
            assert(texts(out@) =~= texts(before).push(strip_cr(l)));
            assert(texts(out@) + lines_from(s@, i + 1) =~= texts(before) + lines_from(s@, start as int));
            start = i + 1;
        }
        i = i + 1;
    }
    if start < n {
        let piece = section(s, start, n);
        let ghost before = out@;
        assert(lines_from(s@, start as int) == seq![s@.subrange(start as int, n as int)]);
        out.push(string_from_chars(piece.as_slice()));
        assert(texts(out@) =~= texts(before).push(piece@));
    } else {
        assert(texts(out@) + lines_from(s@, start as int) =~= texts(out@));
    }
    out
}

/// The variables in lines of `env` output.
fn env_entries(lines: &Vec<String>) -> (r: Vec<(String, String)>)
    ensures
        pairs_view(r@) == env_pairs(texts(lines@)),
{
    let ghost ls = texts(lines@);
    let mut out: Vec<(String, String)> = Vec::new();
    let mut i: usize = 0;
    while i < lines.len()
        invariant
            i <= lines@.len(),
            ls == texts(lines@),
            pairs_view(out@) == env_pairs(ls.subrange(0, i as int)),
        decreases lines.len() - i,
    {
        assert(ls.subrange(0, i + 1).drop_last() =~= ls.subrange(0, i as int));
        match split_once_eq(lines[i].as_str()) {
            Some((k, v)) => {
                if chars_of(k.as_str()).len() > 0 {
                    let ghost before = out@;
                    out.push((k, v));
                    assert(pairs_view(out@) =~= pairs_view(before).push((k@, v@)));
                }
            },
            None => {},
        }
        i = i + 1;
    }
    assert(ls.subrange(0, lines@.len() as int) =~= ls);
    out
}

/// Whether the line starts with `alias `.
fn starts_with_alias_word(l: &Vec<char>) -> (r: bool)
    ensures
        r == (l@.len() >= 6 && l@.subrange(0, 6) == "alias "@),
{
    let w = chars_of("alias ");
    proof {
        reveal_strlit("alias ");
    }
    if l.len() < w.len() {
        return false;
    }
    let mut j: usize = 0;
    while j < w.len()
        invariant
            j <= w@.len(),
            w@ == "alias "@,
            w@.len() <= l@.len(),
            forall|q: int| 0 <= q < j ==> l@[q] == w@[q],
        decreases w.len() - j,
    {
        if l[j] != w[j] {
            assert(l@.subrange(0, w@.len() as int)[j as int] != w@[j as int]);
            return false;
        }
        j = j + 1;
    }
    assert(l@.subrange(0, w@.len() as int) =~= w@);
    true
}

/// A value without one pair of enclosing quotes.
fn unquote_chars(v: &Vec<char>) -> (r: String)
    ensures
        r@ == unquote(v@),
{
    let n = v.len();
    if n >= 2 && ((v[0] == '\'' && v[n - 1] == '\'') || (v[0] == '"' && v[n - 1] == '"')) {
        let inner = section(v, 1, n - 1);
        string_from_chars(inner.as_slice())
    } else {
        string_from_chars(v.as_slice())
    }
}

/// The alias a line of `alias` output defines, if any.
fn alias_entry_of(line: &str) -> (r: Option<(String, String)>)
    ensures
        match r {
            Some((k, v)) => alias_entry(line@) == Some((k@, v@)),
            None => alias_entry(line@) is None,
        },
{
    let cs = chars_of(line);
    let t = trim(cs.as_slice());
    let body = if starts_with_alias_word(&t) {
        section(&t, 6, t.len())
    } else {
        t
    };
    let text = string_from_chars(body.as_slice());
    match split_once_eq(text.as_str()) {
        Some((k, v)) => {
            let vc = chars_of(v.as_str());
            let vt = trim(vc.as_slice());
            Some((k, unquote_chars(&vt)))
        },
        None => None,
    }
}

/// The aliases in lines of `alias` output.
fn alias_entries(lines: &Vec<String>) -> (r: Vec<(String, String)>)
    ensures
        pairs_view(r@) == alias_pairs(texts(lines@)),
{
    let ghost ls = texts(lines@);
    let mut out: Vec<(String, String)> = Vec::new();
    let mut i: usize = 0;
    while i < lines.len()
        invariant
            i <= lines@.len(),
            ls == texts(lines@),
            pairs_view(out@) == alias_pairs(ls.subrange(0, i as int)),
        decreases lines.len() - i,
    {
        assert(ls.subrange(0, i + 1).drop_last() =~= ls.subrange(0, i as int));
        match alias_entry_of(lines[i].as_str()) {
            Some((k, v)) => {
                let ghost before = out@;
                out.push((k, v));
                assert(pairs_view(out@) =~= pairs_view(before).push((k@, v@)));
            },
            None => {},
        }
        i = i + 1;
    }
    assert(ls.subrange(0, lines@.len() as int) =~= ls);
    out
}

/// Reads the output of the import script: the variables between the two
/// marks and the aliases after the second; `None` when a mark is missing.
pub fn parse_import(raw: &str) -> (r: Option<Imported>)
    requires
        marks_ordered(raw@),
    ensures
        match r {
            Some(imp) => import_spec(raw@) == Some((pairs_view(imp.vars@), pairs_view(imp.aliases@))),
            None => import_spec(raw@) is None,
        },
{
    let a = match find_sub(raw, "===XSH_ENV_MARK===") {
        Some(a) => a,
        None => {
            return None;
        },
    };
    let b = match find_sub(raw, "===XSH_ALIAS_MARK===") {
        Some(b) => b,
        None => {
            return None;
        },
    };
    let cs = chars_of(raw);
    let le = chars_of("===XSH_ENV_MARK===").len();
    let la = chars_of("===XSH_ALIAS_MARK===").len();
    proof {
        lemma_occurrence_fits(raw@, alias_mark(), 0);
        lemma_occurrence_fits(raw@, env_mark(), 0);
    }
    assert(la == alias_mark().len());
    assert(le == env_mark().len());
    assert(cs@ == raw@);
    assert(b + la <= cs@.len());
    assert(cs@.len() == cs.len());
    let env_text = section(&cs, a + le, b);
    let alias_text = section(&cs, b + la, cs.len());
    let env_lines = lines_of(&env_text);
    let alias_lines = lines_of(&alias_text);
    let vars = env_entries(&env_lines);
    let aliases = alias_entries(&alias_lines);
    Some(Imported { vars, aliases })
}

/// Where a text occurs, it fits.
proof fn lemma_occurrence_fits(s: Seq<char>, t: Seq<char>, i: int)
    ensures
        match first_occurrence(s, t, i) {
            Some(j) => i <= j && j + t.len() <= s.len() && 0 <= j,
            None => true,
        },
    decreases s.len() - i,
{
    if !(i < 0 || i + t.len() > s.len()) && !(0 <= i && i + t.len() <= s.len() && s.subrange(i, i + t.len()) == t)
        && i < s.len() {
        lemma_occurrence_fits(s, t, i + 1);
    }
}

/// `unquote` takes off one pair of enclosing single or double quotes and
/// leaves a value that does not start with a quote as it is.
pub proof fn unquote_removes_one_pair(v: Seq<char>)
    ensures
        unquote(seq!['\''] + v + seq!['\'']) == v,
        unquote(seq!['"'] + v + seq!['"']) == v,
        v.len() == 0 || (v[0] != '\'' && v[0] != '"') ==> unquote(v) == v,
{
    let a = seq!['\''] + v + seq!['\''];
    assert(a.subrange(1, a.len() - 1) =~= v);
    assert(a[0] == '\'' && a.last() == '\'');
    let b = seq!['"'] + v + seq!['"'];
    assert(b.subrange(1, b.len() - 1) =~= v);
    assert(b[0] == '"' && b.last() == '"');
}

/// A line `alias NAME='VALUE'`, as `alias` prints one, defines `NAME` as
/// `VALUE`.
pub proof fn alias_line_read_back(name: Seq<char>, v: Seq<char>)
    requires
        !name.contains('='),
    ensures
        alias_entry("alias "@ + name + seq!['=', '\''] + v + seq!['\'']) == Some((name, v)),
{
    reveal_strlit("alias ");
    let quoted = seq!['\''] + v + seq!['\''];
    let line = "alias "@ + name + seq!['=', '\''] + v + seq!['\''];
    assert(line[0] == 'a' && line.last() == '\'');
    lemma_trim_unchanged(line);
    assert(line.subrange(0, 6) =~= "alias "@);
    let rest = name + seq!['='] + quoted;
    assert(line.subrange(6, line.len() as int) =~= rest);
    split_of_assignment(name, quoted);
    assert(quoted[0] == '\'' && quoted.last() == '\'');
    lemma_trim_unchanged(quoted);
    unquote_removes_one_pair(v);
}

/// A line `NAME=VALUE` of `env` gives that variable when the name is not
/// empty, and nothing when it is.
pub proof fn env_line_read_back(name: Seq<char>, v: Seq<char>)
    requires
        !name.contains('='),
    ensures
        name.len() > 0 ==> env_pairs(seq![name + seq!['='] + v]) == seq![(name, v)],
        env_pairs(seq![seq!['='] + v]) == Seq::<(Seq<char>, Seq<char>)>::empty(),
{
    let none: Seq<(Seq<char>, Seq<char>)> = Seq::empty();
    split_of_assignment(name, v);
    let l1 = seq![name + seq!['='] + v];
    assert(l1.drop_last() =~= Seq::<Seq<char>>::empty());
    assert(l1.last() == name + seq!['='] + v);
    assert(env_pairs(l1.drop_last()) == none);
    assert(none.push((name, v)) =~= seq![(name, v)]);
    let e: Seq<char> = Seq::empty();
    assert(!e.contains('='));
    split_of_assignment(e, v);
    assert(e + seq!['='] + v =~= seq!['='] + v);
    let l2 = seq![seq!['='] + v];
    assert(l2.drop_last() =~= Seq::<Seq<char>>::empty());
    assert(l2.last() == seq!['='] + v);
    assert(env_pairs(l2.drop_last()) == none);
}

} // verus!
