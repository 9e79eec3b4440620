//! Shell patterns: `*`, `?`, bracket expressions `[...]`, literal characters.

use vstd::prelude::*;
use crate::text::chars_of;

verus! {

/// Scans the body of a bracket expression from `j`, where the first item
/// starts at `start`, looking for `c`: the index of the closing `]` (or the
/// end of the pattern), and whether `c` was matched by an item.
pub open spec fn bracket_scan(p: Seq<char>, j: int, start: int, c: char, found: bool) -> (int, bool)
    decreases p.len() - j,
{
    if j < 0 || j >= p.len() || (p[j] == ']' && j != start) {
        (j, found)
    } else if j + 2 < p.len() && p[j + 1] == '-' && p[j + 2] != ']' {
        bracket_scan(p, j + 3, start, c, found || (p[j] <= c && c <= p[j + 2]))
    } else {
        bracket_scan(p, j + 1, start, c, found || p[j] == c)
    }
}

/// Whether the pattern from index `pi` matches the text from index `ti`.
pub open spec fn glob_match(p: Seq<char>, pi: int, t: Seq<char>, ti: int) -> bool
    decreases p.len() - pi, t.len() + 2 - ti,
{
    if ti < 0 || ti > t.len() {
        false
    } else if pi < 0 || pi >= p.len() {
        ti == t.len()
    } else if p[pi] == '*' {
        star_match(p, pi, t, ti)
    } else if p[pi] == '?' {
        ti < t.len() && glob_match(p, pi + 1, t, ti + 1)
    } else if p[pi] == '[' {
        if ti >= t.len() {
            false
        } else {
            let negate = pi + 1 < p.len() && (p[pi + 1] == '!' || p[pi + 1] == '^');
            let start = if negate { pi + 2 } else { pi + 1 };
            let (j, found) = bracket_scan(p, start, start, t[ti], false);
            if j >= p.len() || j <= pi {
                // no closing bracket: `[` stands for itself
                t[ti] == '[' && glob_match(p, pi + 1, t, ti + 1)
            } else {
                (if negate { !found } else { found }) && glob_match(p, j + 1, t, ti + 1)
            }
        }
    } else {
        ti < t.len() && t[ti] == p[pi] && glob_match(p, pi + 1, t, ti + 1)
    }
}

/// Whether the rest of the pattern after the `*` at `pi` matches the text
/// from some index at or after `j`.
pub open spec fn star_match(p: Seq<char>, pi: int, t: Seq<char>, j: int) -> bool
    decreases p.len() - pi, t.len() + 1 - j,
{
    if pi < 0 || pi >= p.len() || j < 0 || j > t.len() {
        false
    } else {
        glob_match(p, pi + 1, t, j) || (j < t.len() && star_match(p, pi, t, j + 1))
    }
}

/// A `*` matches any stretch of the text: `star_match` holds exactly when
/// the rest of the pattern matches from some index at or after `j`.
pub proof fn lemma_star_match(p: Seq<char>, pi: int, t: Seq<char>, j: int)
    requires
        0 <= pi < p.len(),
        0 <= j <= t.len(),
    ensures
        star_match(p, pi, t, j) == (exists|k: int| j <= k <= t.len() && #[trigger] glob_match(p, pi + 1, t, k)),
    decreases t.len() - j,
{
    if j < t.len() {
        lemma_star_match(p, pi, t, j + 1);
        if star_match(p, pi, t, j + 1) {
            let k = choose|k: int| j + 1 <= k <= t.len() && #[trigger] glob_match(p, pi + 1, t, k);
            assert(glob_match(p, pi + 1, t, k));
        }
    }
    if glob_match(p, pi + 1, t, j) {
        assert(glob_match(p, pi + 1, t, j));
    }
}

/// No character of the pattern from `i` on is special (`*`, `?` or `[`).
pub open spec fn is_literal_pattern(p: Seq<char>, i: int) -> bool {
    forall|k: int| i <= k < p.len() ==> #[trigger] p[k] != '*' && p[k] != '?' && p[k] != '['
}

/// A pattern without special characters matches exactly the text it spells.
pub proof fn literal_pattern_matches_itself(p: Seq<char>, t: Seq<char>)
    requires
        is_literal_pattern(p, 0),
    ensures
        glob_matches(p, t) <==> p == t,
{
    lemma_literal_from(p, 0, t, 0);
    if p.len() == t.len() && p.subrange(0, p.len() as int) == t.subrange(0, t.len() as int) {
        assert(p =~= p.subrange(0, p.len() as int));
        assert(t =~= t.subrange(0, t.len() as int));
    }
    if p == t {
        assert(p.subrange(0, p.len() as int) =~= t.subrange(0, t.len() as int));
    }
}

proof fn lemma_literal_from(p: Seq<char>, i: int, t: Seq<char>, j: int)
    requires
        0 <= i <= p.len(),
        0 <= j <= t.len(),
        is_literal_pattern(p, i),
    ensures
        glob_match(p, i, t, j) <==> (p.len() - i == t.len() - j && p.subrange(i, p.len() as int) == t.subrange(
            j,
            t.len() as int,
        )),
    decreases p.len() - i,
{
    if i < p.len() {
        assert(p[i] != '*' && p[i] != '?' && p[i] != '[');
        if j < t.len() {
            lemma_literal_from(p, i + 1, t, j + 1);
            if p.len() - i == t.len() - j && p.subrange(i, p.len() as int) == t.subrange(j, t.len() as int) {
                assert(p[i] == p.subrange(i, p.len() as int)[0]);
                assert(p.subrange(i + 1, p.len() as int) =~= p.subrange(i, p.len() as int).drop_first());
                assert(t.subrange(j + 1, t.len() as int) =~= t.subrange(j, t.len() as int).drop_first());
            }
            if glob_match(p, i, t, j) {
                assert(p.subrange(i, p.len() as int) =~= seq![p[i]] + p.subrange(i + 1, p.len() as int));
                assert(t.subrange(j, t.len() as int) =~= seq![t[j]] + t.subrange(j + 1, t.len() as int));
            }
        } else {
            assert(t.subrange(j, t.len() as int).len() == 0);
        }
    } else {
        assert(p.subrange(i, p.len() as int).len() == 0);
        if j == t.len() {
            assert(p.subrange(i, p.len() as int) =~= t.subrange(j, t.len() as int));
        }
    }
}

/// The pattern `*` matches every text.
pub proof fn star_matches_everything(t: Seq<char>)
    ensures
        glob_matches(seq!['*'], t),
{
    let p = seq!['*'];
    lemma_star_match(p, 0, t, 0);
    assert(glob_match(p, 1, t, t.len() as int));
}

/// The pattern `?` matches exactly the texts of one character.
pub proof fn question_mark_matches_one_char(t: Seq<char>)
    ensures
        glob_matches(seq!['?'], t) <==> t.len() == 1,
{
    let p = seq!['?'];
    if t.len() > 0 {
        assert(glob_match(p, 1, t, 1) <==> t.len() == 1);
    }
}

/// Whether the whole text matches the whole pattern.
pub open spec fn glob_matches(p: Seq<char>, t: Seq<char>) -> bool {
    glob_match(p, 0, t, 0)
}

/// Whether `pattern` matches all of `text`.
pub fn matches(pattern: &str, text: &str) -> (r: bool)
    ensures
        r == glob_matches(pattern@, text@),
{
    let p = chars_of(pattern);
    let t = chars_of(text);
    match_at(&p, 0, &t, 0)
}

/// Scans a bracket expression; see `bracket_scan`.
fn scan_bracket(p: &Vec<char>, start: usize, c: char) -> (r: (usize, bool))
    requires
        start <= p@.len(),
    ensures
        (r.0 as int, r.1) == bracket_scan(p@, start as int, start as int, c, false),
        start <= r.0 <= p@.len(),
{
    let mut j = start;
    let mut found = false;
    while j < p.len() && (p[j] != ']' || j == start)
        invariant
            start <= j <= p@.len(),
            bracket_scan(p@, j as int, start as int, c, found) == bracket_scan(p@, start as int, start as int, c, false),
        decreases p.len() - j,
    {
        if p.len() - j > 2 && p[j + 1] == '-' && p[j + 2] != ']' {
            if p[j] <= c && c <= p[j + 2] {
                found = true;
            }
            j = j + 3;
        } else {
            if p[j] == c {
                found = true;
            }
            j = j + 1;
        }
    }
    (j, found)
}

#[verifier::loop_isolation(false)]
fn match_at(p: &Vec<char>, pi: usize, t: &Vec<char>, ti: usize) -> (r: bool)
    requires
        pi <= p@.len(),
        ti <= t@.len(),
    ensures
        r == glob_match(p@, pi as int, t@, ti as int),
    decreases p@.len() - pi,
{
    if pi == p.len() {
        return ti == t.len();
    }
    let c = p[pi];
    if c == '*' {
        let next = pi + 1;
        let mut j = ti;
        loop
            invariant
                pi < p@.len(),
                p@[pi as int] == '*',
                ti <= j <= t@.len(),
                star_match(p@, pi as int, t@, j as int) == star_match(p@, pi as int, t@, ti as int),
            decreases t@.len() - j,
        {
            if match_at(p, next, t, j) {
                return true;
            }
            if j == t.len() {
                return false;
            }
            j = j + 1;
        }
    } else if c == '?' {
        ti < t.len() && match_at(p, pi + 1, t, ti + 1)
    } else if c == '[' {
        if ti >= t.len() {
            return false;
        }
        let negate = pi + 1 < p.len() && (p[pi + 1] == '!' || p[pi + 1] == '^');
        let start = if negate { pi + 2 } else { pi + 1 };
        let (j, found) = scan_bracket(p, start, t[ti]);
        if j >= p.len() {
            return t[ti] == '[' && match_at(p, pi + 1, t, ti + 1);
        }
        let matched = if negate { !found } else { found };
        matched && match_at(p, j + 1, t, ti + 1)
    } else {
        ti < t.len() && t[ti] == c && match_at(p, pi + 1, t, ti + 1)
    }
}

/// The empty pattern matches only the empty text.
pub proof fn empty_pattern_matches_only_empty(t: Seq<char>)
    ensures
        glob_matches(Seq::empty(), t) <==> t.len() == 0,
{
}

/// Scanning a bracket expression of `p` or of `p` with a `*` after it gives
/// the same closing bracket and result when `p` closes it, and no closing
/// bracket in the longer pattern when `p` has none.
proof fn lemma_scan_extended(p: Seq<char>, j: int, start: int, c: char, found: bool)
    requires
        0 <= j <= p.len(),
    ensures
        ({
            let q = p.push('*');
            let (e, f) = bracket_scan(p, j, start, c, found);
            let (e2, f2) = bracket_scan(q, j, start, c, found);
            &&& e < p.len() ==> e2 == e && f2 == f
            &&& e >= p.len() ==> e2 == q.len()
        }),
    decreases p.len() - j,
{
    let q = p.push('*');
    if j == p.len() {
        assert(q[j] == '*');
        assert(bracket_scan(q, j + 1, start, c, found || q[j] == c).0 == q.len());
    } else {
        assert(q[j] == p[j]);
        if p[j] == ']' && j != start {
        } else if j + 2 < p.len() && p[j + 1] == '-' && p[j + 2] != ']' {
            assert(q[j + 1] == p[j + 1] && q[j + 2] == p[j + 2]);
            lemma_scan_extended(p, j + 3, start, c, found || (p[j] <= c && c <= p[j + 2]));
        } else if j + 2 == p.len() && p[j + 1] == '-' {
            assert(q[j + 1] == '-' && q[j + 2] == '*');
            let f1 = found || p[j] == c;
            assert(bracket_scan(p, j + 2, start, c, f1 || p[j + 1] == c).0 == p.len());
            assert(bracket_scan(p, j + 1, start, c, f1).0 == p.len());
            assert(bracket_scan(q, j + 3, start, c, found || (q[j] <= c && c <= q[j + 2])).0 == q.len());
        } else {
            if j + 1 < p.len() {
                assert(q[j + 1] == p[j + 1]);
            }
            if j + 2 < p.len() {
                assert(q[j + 2] == p[j + 2]);
            }
            lemma_scan_extended(p, j + 1, start, c, found || p[j] == c);
        }
    }
}

proof fn lemma_match_extended(p: Seq<char>, s: Seq<char>, t: Seq<char>, pi: int, ti: int)
    requires
        0 <= pi <= p.len(),
        0 <= ti <= t.len(),
        glob_match(p, pi, t, ti),
    ensures
        glob_match(p.push('*'), pi, t + s, ti),
    decreases p.len() - pi,
{
    let q = p.push('*');
    let u = t + s;
    if pi == p.len() {
        assert(q[pi] == '*');
        assert(glob_match(q, pi + 1, u, u.len() as int));
        lemma_star_match(q, pi, u, ti);
    } else {
        assert(q[pi] == p[pi]);
        if ti < t.len() {
            assert(u[ti] == t[ti]);
        }
        if p[pi] == '*' {
            lemma_star_match(p, pi, t, ti);
            let k = choose|k: int| ti <= k <= t.len() && #[trigger] glob_match(p, pi + 1, t, k);
            lemma_match_extended(p, s, t, pi + 1, k);
            lemma_star_match(q, pi, u, ti);
        } else if p[pi] == '?' {
            lemma_match_extended(p, s, t, pi + 1, ti + 1);
        } else if p[pi] == '[' {
            if pi + 1 < p.len() {
                assert(q[pi + 1] == p[pi + 1]);
            } else {
                assert(q[pi + 1] == '*');
            }
            let negate = pi + 1 < p.len() && (p[pi + 1] == '!' || p[pi + 1] == '^');
            let start = if negate { pi + 2 } else { pi + 1 };
            lemma_scan_extended(p, start, start, t[ti], false);
            let (j, found) = bracket_scan(p, start, start, t[ti], false);
            if j >= p.len() || j <= pi {
                lemma_match_extended(p, s, t, pi + 1, ti + 1);
            } else {
                lemma_match_extended(p, s, t, j + 1, ti + 1);
            }
        } else {
            lemma_match_extended(p, s, t, pi + 1, ti + 1);
        }
    }
}

/// Adding `*` to a pattern extends what it matches: if `p` matches `t`,
/// `p*` matches `t` followed by anything.
pub proof fn star_suffix_extends_match(p: Seq<char>, t: Seq<char>, s: Seq<char>)
    requires
        glob_matches(p, t),
    ensures
        glob_matches(p.push('*'), t + s),
{
    lemma_match_extended(p, s, t, 0, 0);
}

/// A range bracket `[l-h]` matches one character exactly when it lies
/// between `l` and `h`, both ends included.
pub proof fn range_bracket_matches_between(l: char, h: char, c: char)
    requires
        l != '!' && l != '^',
        h != ']',
    ensures
        glob_matches(seq!['[', l, '-', h, ']'], seq![c]) <==> (l <= c && c <= h),
{
    let p = seq!['[', l, '-', h, ']'];
    let t = seq![c];
    let f = l <= c && c <= h;
    assert(bracket_scan(p, 4, 1, c, f) == (4int, f));
    assert(bracket_scan(p, 1, 1, c, false) == (4int, f));
    assert(glob_match(p, 5, t, 1));
}

/// A negated range bracket `[!l-h]` matches one character exactly when it
/// lies outside `l` to `h`.
pub proof fn negated_range_bracket_matches_outside(l: char, h: char, c: char)
    requires
        h != ']',
    ensures
        glob_matches(seq!['[', '!', l, '-', h, ']'], seq![c]) <==> !(l <= c && c <= h),
{
    let p = seq!['[', '!', l, '-', h, ']'];
    let t = seq![c];
    let f = l <= c && c <= h;
    assert(bracket_scan(p, 5, 2, c, f) == (5int, f));
    assert(bracket_scan(p, 2, 2, c, false) == (5int, f));
    assert(glob_match(p, 6, t, 1));
}

/// A bracket of one character `[a]` matches exactly that character.
pub proof fn single_char_bracket_matches_it(a: char, c: char)
    requires
        a != '!' && a != '^',
    ensures
        glob_matches(seq!['[', a, ']'], seq![c]) <==> c == a,
{
    let p = seq!['[', a, ']'];
    let t = seq![c];
    assert(bracket_scan(p, 2, 1, c, a == c) == (2int, a == c));
    assert(bracket_scan(p, 1, 1, c, false) == (2int, a == c));
    assert(glob_match(p, 3, t, 1));
}

/// Literal characters at the same places in pattern and text are matched
/// one by one.
proof fn lemma_literal_prefix(p: Seq<char>, t: Seq<char>, i: int, e: int)
    requires
        0 <= i <= e,
        e <= p.len(),
        e <= t.len(),
        forall|k: int| i <= k < e ==> #[trigger] p[k] != '*' && p[k] != '?' && p[k] != '[' && t[k] == p[k],
    ensures
        glob_match(p, i, t, i) == glob_match(p, e, t, e),
    decreases e - i,
{
    if i < e {
        assert(p[i] != '*' && p[i] != '?' && p[i] != '[' && t[i] == p[i]);
        lemma_literal_prefix(p, t, i + 1, e);
    }
}

/// A `*` between two literal parts matches any text between them: `a*b`
/// matches `a`, then anything, then `b`.
pub proof fn star_between_literals(a: Seq<char>, b: Seq<char>, m: Seq<char>)
    requires
        is_literal_pattern(a, 0),
        is_literal_pattern(b, 0),
    ensures
        glob_matches(a + seq!['*'] + b, a + m + b),
{
    let p = a + seq!['*'] + b;
    let t = a + m + b;
    let na = a.len() as int;
    let k = na + m.len();
    assert forall|j: int| 0 <= j < na implies #[trigger] p[j] != '*' && p[j] != '?' && p[j] != '[' && t[j] == p[j] by {
        assert(p[j] == a[j] && t[j] == a[j]);
        assert(a[j] != '*' && a[j] != '?' && a[j] != '[');
    }
    lemma_literal_prefix(p, t, 0, na);
    assert(p[na] == '*');
    assert forall|j: int| na + 1 <= j < p.len() implies #[trigger] p[j] != '*' && p[j] != '?' && p[j] != '[' by {
        assert(p[j] == b[j - na - 1]);
        assert(b[j - na - 1] != '*' && b[j - na - 1] != '?' && b[j - na - 1] != '[');
    }
    assert(is_literal_pattern(p, na + 1));
    lemma_literal_from(p, na + 1, t, k);
    assert(p.subrange(na + 1, p.len() as int) =~= b);
    assert(t.subrange(k, t.len() as int) =~= b);
    assert(glob_match(p, na + 1, t, k));
    lemma_star_match(p, na, t, na);
}

} // verus!
