//! Characters and strings: classification, conversion, decimal numbers.

use vstd::prelude::*;

verus! {

broadcast use vstd::string::group_string_axioms;

/// The text of an optional string.
pub open spec fn opt_text(o: Option<String>) -> Option<Seq<char>> {
    match o {
        Some(s) => Some(s@),
        None => None,
    }
}

/// An ASCII decimal digit.
pub open spec fn is_digit(c: char) -> bool {
    '0' <= c && c <= '9'
}

/// An ASCII letter.
pub open spec fn is_ascii_letter(c: char) -> bool {
    ('a' <= c && c <= 'z') || ('A' <= c && c <= 'Z')
}

/// The Unicode `Alphabetic` property, as `char::is_alphabetic` reports it.
pub uninterp spec fn char_alphabetic(c: char) -> bool;

/// The Unicode numeric categories (Nd, Nl, No), as `char::is_numeric` reports them.
pub uninterp spec fn char_numeric(c: char) -> bool;

/// The Unicode `White_Space` property (what `char::is_whitespace` reports):
/// tab to carriage return, space, next line, no-break space, the ogham space
/// mark, the spaces from en quad to hair space, the line and paragraph
/// separators, the narrow no-break space, the medium mathematical space and
/// the ideographic space.
pub open spec fn char_white_space(c: char) -> bool {
    ('\u{9}' <= c && c <= '\u{d}') || c == '\u{20}' || c == '\u{85}' || c == '\u{a0}' || c == '\u{1680}'
        || ('\u{2000}' <= c && c <= '\u{200a}') || c == '\u{2028}' || c == '\u{2029}' || c == '\u{202f}'
        || c == '\u{205f}' || c == '\u{3000}'
}

/// `char::is_alphanumeric`: alphabetic or numeric.
pub open spec fn char_alphanumeric(c: char) -> bool {
    char_alphabetic(c) || char_numeric(c)
}

/// A character that may start a name: alphabetic or `_`.
pub open spec fn is_name_start(c: char) -> bool {
    char_alphabetic(c) || c == '_'
}

/// A character that may continue a name: alphanumeric or `_`.
pub open spec fn is_name_char(c: char) -> bool {
    char_alphanumeric(c) || c == '_'
}

/// Calls `char::is_alphabetic`. Claims that the result is the Unicode
/// `Alphabetic` property of `c`, which on ASCII holds exactly of the letters.
#[verifier::external_body]
pub(crate) fn is_alphabetic(c: char) -> (r: bool)
    ensures
        r == char_alphabetic(c),
        c <= '\x7f' ==> (r <==> is_ascii_letter(c)),
{
    c.is_alphabetic()
}

/// Calls `char::is_alphanumeric`. Claims that the result is "alphabetic or
/// numeric" (as its documentation defines it); on ASCII the numeric
/// characters are exactly the decimal digits.
#[verifier::external_body]
pub(crate) fn is_alphanumeric(c: char) -> (r: bool)
    ensures
        r == (char_alphabetic(c) || char_numeric(c)),
        c <= '\x7f' ==> (r <==> (is_ascii_letter(c) || is_digit(c))),
{
    c.is_alphanumeric()
}

/// Whether `c` is white space (`char::is_whitespace`); on ASCII: space,
/// tab, line feed, vertical tab, form feed and carriage return.
pub(crate) fn is_whitespace(c: char) -> (r: bool)
    ensures
        r == char_white_space(c),
        c <= '\x7f' ==> (r <==> (c == ' ' || c == '\t' || c == '\n' || c == '\x0B' || c == '\x0C' || c == '\r')),
{
    ('\u{9}' <= c && c <= '\u{d}') || c == '\u{20}' || c == '\u{85}' || c == '\u{a0}' || c == '\u{1680}'
        || ('\u{2000}' <= c && c <= '\u{200a}') || c == '\u{2028}' || c == '\u{2029}' || c == '\u{202f}'
        || c == '\u{205f}' || c == '\u{3000}'
}

/// Calls `FromIterator<char> for String` (through `collect`): the string
/// holds exactly the given characters in order.
#[verifier::external_body]
pub(crate) fn string_from_chars(v: &[char]) -> (s: String)
    ensures
        s@ == v@,
{
    v.iter().collect()
}

/// The characters of a string slice, in order.
pub fn chars_of(s: &str) -> (v: Vec<char>)
    ensures
        v@ == s@,
{
    let mut v: Vec<char> = Vec::new();
    for c in iter: s.chars()
        invariant
            v@ == iter.seq().take(iter.index() as int),
    {
        v.push(c);
    }
    v
}


/// The character of a decimal digit value (0 to 9).
pub open spec fn digit_char(d: int) -> char {
    (d + 48) as char
}

/// The value of an ASCII digit character.
pub open spec fn digit_value(c: char) -> int {
    (c as int) - 48
}

/// Decimal notation of a natural number, without leading zeros.
pub open spec fn nat_to_dec(n: nat) -> Seq<char>
    decreases n,
{
    if n < 10 {
        seq![digit_char(n as int)]
    } else {
        nat_to_dec(n / 10).push(digit_char((n % 10) as int))
    }
}

/// Decimal notation of an integer, with a leading `-` when it is negative
/// (what `to_string` gives for Rust's integer types).
pub open spec fn int_to_dec(n: int) -> Seq<char> {
    if n < 0 {
        seq!['-'] + nat_to_dec((-n) as nat)
    } else {
        nat_to_dec(n as nat)
    }
}

/// The end of a run of ASCII digits starting at `i`.
pub open spec fn digits_end_spec(s: Seq<char>, i: int) -> int
    decreases s.len() - i,
{
    if 0 <= i < s.len() && is_digit(s[i]) {
        digits_end_spec(s, i + 1)
    } else {
        i
    }
}

/// Every character of `s` is an ASCII digit.
pub open spec fn all_digits(s: Seq<char>) -> bool {
    forall|i: int| 0 <= i < s.len() ==> is_digit(#[trigger] s[i])
}

/// The value of a string of decimal digits.
pub open spec fn digits_value(s: Seq<char>) -> int
    decreases s.len(),
{
    if s.len() == 0 {
        0
    } else {
        digits_value(s.drop_last()) * 10 + digit_value(s.last())
    }
}

/// What `str::parse::<i64>` accepts and gives: an optional `+` or `-`, then
/// at least one ASCII digit, with a value in the range of `i64`.
pub open spec fn parse_i64_spec(s: Seq<char>) -> Option<int> {
    let neg = s.len() > 0 && s[0] == '-';
    let signed = s.len() > 0 && (s[0] == '-' || s[0] == '+');
    let digits = if signed { s.drop_first() } else { s };
    if digits.len() == 0 || !all_digits(digits) {
        None
    } else {
        let v = if neg { -digits_value(digits) } else { digits_value(digits) };
        if i64::MIN <= v <= i64::MAX {
            Some(v)
        } else {
            None
        }
    }
}

/// Leading characters of `s` that are white space: how many.
pub open spec fn lead_ws(s: Seq<char>) -> nat
    decreases s.len(),
{
    if s.len() > 0 && char_white_space(s[0]) {
        1 + lead_ws(s.drop_first())
    } else {
        0
    }
}

/// Trailing characters of `s` that are white space: how many.
pub open spec fn trail_ws(s: Seq<char>) -> nat
    decreases s.len(),
{
    if s.len() > 0 && char_white_space(s.last()) {
        1 + trail_ws(s.drop_last())
    } else {
        0
    }
}

/// `str::trim`: `s` without its leading and trailing white space.
pub open spec fn trim_spec(s: Seq<char>) -> Seq<char> {
    let a = lead_ws(s) as int;
    if a == s.len() {
        Seq::empty()
    } else {
        s.subrange(a, s.len() - trail_ws(s) as int)
    }
}

/// `lead_ws` is the length of the longest all-white-space prefix.
proof fn lemma_lead_ws(s: Seq<char>, k: int)
    requires
        0 <= k <= s.len(),
        forall|j: int| 0 <= j < k ==> char_white_space(#[trigger] s[j]),
        k == s.len() || !char_white_space(s[k]),
    ensures
        lead_ws(s) == k,
    decreases k,
{
    if k > 0 {
        assert forall|j: int| 0 <= j < k - 1 implies char_white_space(#[trigger] s.drop_first()[j]) by {
            assert(s.drop_first()[j] == s[j + 1]);
        }
        lemma_lead_ws(s.drop_first(), k - 1);
    }
}

/// `trail_ws` is the length of the longest all-white-space suffix.
proof fn lemma_trail_ws(s: Seq<char>, k: int)
    requires
        0 <= k <= s.len(),
        forall|j: int| s.len() - k <= j < s.len() ==> char_white_space(#[trigger] s[j]),
        k == s.len() || !char_white_space(s[s.len() - k - 1]),
    ensures
        trail_ws(s) == k,
    decreases k,
{
    if k > 0 {
        let t = s.drop_last();
        assert forall|j: int| t.len() - (k - 1) <= j < t.len() implies char_white_space(#[trigger] t[j]) by {
            assert(t[j] == s[j]);
        }
        lemma_trail_ws(t, k - 1);
    }
}

/// `str::trim` on a string of characters.
pub fn trim(s: &[char]) -> (r: Vec<char>)
    ensures
        r@ == trim_spec(s@),
{
    let n = s.len();
    let mut i: usize = 0;
    while i < n && is_whitespace(s[i])
        invariant
            i <= n,
            n == s@.len(),
            forall|j: int| 0 <= j < i ==> char_white_space(#[trigger] s@[j]),
        decreases n - i,
    {
        i = i + 1;
    }
    proof {
        lemma_lead_ws(s@, i as int);
    }
    let mut r: Vec<char> = Vec::new();
    if i == n {
        return r;
    }
    let mut j: usize = n;
    while j > i + 1 && is_whitespace(s[j - 1])
        invariant
            i < j <= n,
            n == s@.len(),
            !char_white_space(s@[i as int]),
            forall|k: int| j <= k < n ==> char_white_space(#[trigger] s@[k]),
        decreases j,
    {
        j = j - 1;
    }
    proof {
        lemma_trail_ws(s@, (n - j) as int);
    }
    let mut k: usize = i;
    while k < j
        invariant
            i <= k <= j,
            j <= n,
            n == s@.len(),
            r@ == s@.subrange(i as int, k as int),
        decreases j - k,
    {
        r.push(s[k]);
        k = k + 1;
    }
    r
}

/// A word with no white space at either end is its own trimmed form.
pub(crate) proof fn lemma_trim_unchanged(s: Seq<char>)
    requires
        s.len() > 0,
        !char_white_space(s[0]),
        !char_white_space(s.last()),
    ensures
        trim_spec(s) == s,
{
    assert(lead_ws(s) == 0);
    assert(trail_ws(s) == 0);
    assert(s.subrange(0, s.len() as int) =~= s);
}

/// A string of digits has a value of at least zero.
pub(crate) proof fn lemma_digits_value_nonneg(s: Seq<char>)
    requires
        all_digits(s),
    ensures
        digits_value(s) >= 0,
    decreases s.len(),
{
    if s.len() > 0 {
        lemma_digits_value_nonneg(s.drop_last());
    }
}

/// Whether two strings hold the same characters.
pub fn str_eq(a: &str, b: &str) -> (r: bool)
    ensures
        r == (a@ == b@),
{
    let x = chars_of(a);
    let y = chars_of(b);
    if x.len() != y.len() {
        assert(x@.len() != y@.len());
        return false;
    }
    let mut i: usize = 0;
    while i < x.len()
        invariant
            x@ == a@,
            y@ == b@,
            x@.len() == y@.len(),
            i <= x@.len(),
            forall|j: int| 0 <= j < i ==> x@[j] == y@[j],
        decreases x.len() - i,
    {
        if x[i] != y[i] {
            assert(x@[i as int] != y@[i as int]);
            return false;
        }
        i = i + 1;
    }
    assert(x@ =~= y@);
    true
}

/// A string made of the given text followed by more text.
pub fn concat_str(a: &str, b: &str) -> (r: String)
    ensures
        r@ == a@ + b@,
{
    let mut v = chars_of(a);
    let w = chars_of(b);
    let ghost v0 = v@;
    let mut i: usize = 0;
    while i < w.len()
        invariant
            i <= w@.len(),
            v@ == v0 + w@.subrange(0, i as int),
        decreases w.len() - i,
    {
        v.push(w[i]);
        i = i + 1;
        assert(v@ =~= v0 + w@.subrange(0, i as int));
    }
    assert(w@.subrange(0, w@.len() as int) =~= w@);
    string_from_chars(v.as_slice())
}

/// Decimal notation of a natural number below 2^64.
pub fn u64_to_dec(n: u64) -> (v: Vec<char>)
    ensures
        v@ == nat_to_dec(n as nat),
    decreases n,
{
    if n < 10 {
        let mut v: Vec<char> = Vec::new();
        v.push(((n as u8) + 48u8) as char);
        v
    } else {
        let mut v = u64_to_dec(n / 10);
        v.push((((n % 10) as u8) + 48u8) as char);
        v
    }
}

/// `i64::to_string`: decimal notation, `-` first when negative.
pub fn i64_to_string(n: i64) -> (s: String)
    ensures
        s@ == int_to_dec(n as int),
{
    if n < 0 {
        let m: u64 = (0i128 - (n as i128)) as u64;
        let d = u64_to_dec(m);
        let mut v: Vec<char> = Vec::new();
        v.push('-');
        let mut i: usize = 0;
        while i < d.len()
            invariant
                i <= d.len(),
                v@ == seq!['-'] + d@.take(i as int),
            decreases d.len() - i,
        {
            v.push(d[i]);
            i = i + 1;
            assert(d@.take(i as int) == d@.take(i - 1).push(d@[i - 1]));
        }
        assert(d@.take(d.len() as int) == d@);
        string_from_chars(v.as_slice())
    } else {
        let d = u64_to_dec(n as u64);
        string_from_chars(d.as_slice())
    }
}

/// `usize::to_string`: decimal notation.
pub fn usize_to_string(n: usize) -> (s: String)
    ensures
        s@ == nat_to_dec(n as nat),
{
    let d = u64_to_dec(n as u64);
    string_from_chars(d.as_slice())
}

/// `str::parse::<i64>` on a string of characters.
pub fn parse_i64(s: &[char]) -> (r: Option<i64>)
    ensures
        match r {
            Some(v) => parse_i64_spec(s@) == Some(v as int),
            None => parse_i64_spec(s@) is None,
        },
{
    let n = s.len();
    if n == 0 {
        return None;
    }
    let neg = s[0] == '-';
    let start: usize = if s[0] == '-' || s[0] == '+' { 1 } else { 0 };
    if start == n {
        return None;
    }
    let ghost digits = s@.subrange(start as int, n as int);
    let ghost sd = if s@[0] == '-' || s@[0] == '+' { s@.drop_first() } else { s@ };
    assert(sd =~= digits);
    let mut acc: i128 = 0;
    let mut i: usize = start;
    while i < n
        invariant
            start <= i <= n,
            n == s@.len(),
            sd == digits,
            sd == (if s@[0] == '-' || s@[0] == '+' { s@.drop_first() } else { s@ }),
            neg == (s@[0] == '-'),
            start < n,
            digits == s@.subrange(start as int, n as int),
            all_digits(s@.subrange(start as int, i as int)),
            acc == digits_value(s@.subrange(start as int, i as int)),
            0 <= acc <= 0x8000_0000_0000_0000i128,
        decreases n - i,
    {
        let c = s[i];
        if !('0' <= c && c <= '9') {
            assert(!is_digit(sd[i - start]));

            return None;
        }
        let d: i128 = (c as u32 - 48) as i128;
        assert(s@.subrange(start as int, i + 1).drop_last() == s@.subrange(start as int, i as int));
        let next = acc * 10 + d;
        if next > 0x8000_0000_0000_0000i128 {
            proof {
                // every longer prefix of the digits only grows
                lemma_prefix_grows(s@.subrange(start as int, n as int), (i + 1 - start) as int);
                assert(s@.subrange(start as int, n as int).subrange(0, (i + 1 - start) as int)
                    == s@.subrange(start as int, i + 1));
            }
            return None;
        }
        acc = next;
        i = i + 1;
    }
    assert(s@.subrange(start as int, n as int) == digits);
    if neg {
        let v: i128 = 0 - acc;
        Some(v as i64)
    } else {
        if acc > 0x7fff_ffff_ffff_ffffi128 {
            return None;
        }
        Some(acc as i64)
    }
}

/// Extending a digit string never lowers its value below that of a prefix
/// (when the whole string is made of digits).
proof fn lemma_prefix_grows(s: Seq<char>, k: int)
    requires
        0 <= k <= s.len(),
        all_digits(s.subrange(0, k)),
    ensures
        all_digits(s) ==> digits_value(s) >= digits_value(s.subrange(0, k)),
    decreases s.len() - k,
{
    if k == s.len() {
        assert(s.subrange(0, k) =~= s);
    }
    if all_digits(s) && k < s.len() {
        assert(s.subrange(0, k + 1).drop_last() == s.subrange(0, k));
        assert(all_digits(s.subrange(0, k + 1)));
        lemma_digits_value_nonneg(s.subrange(0, k));
        lemma_digits_value_nonneg(s.subrange(0, k + 1));
        lemma_prefix_grows(s, k + 1);
    }
}

/// `t` occurs in `s` at index `i`.
pub open spec fn occurs_at(s: Seq<char>, t: Seq<char>, i: int) -> bool {
    0 <= i && i + t.len() <= s.len() && s.subrange(i, i + t.len()) == t
}

/// The first index, from `i` on, at which `t` occurs in `s`.
pub open spec fn first_occurrence(s: Seq<char>, t: Seq<char>, i: int) -> Option<int>
    decreases s.len() - i,
{
    if i < 0 || i + t.len() > s.len() {
        None
    } else if occurs_at(s, t, i) {
        Some(i)
    } else if i >= s.len() {
        None
    } else {
        first_occurrence(s, t, i + 1)
    }
}

/// Whether `t` occurs in `s` at index `i`.
fn matches_at(s: &Vec<char>, t: &Vec<char>, i: usize) -> (r: bool)
    requires
        i + t@.len() <= s@.len(),
    ensures
        r == occurs_at(s@, t@, i as int),
{
    let mut j: usize = 0;
    while j < t.len()
        invariant
            j <= t@.len(),
            i + t@.len() <= s@.len(),
            forall|q: int| 0 <= q < j ==> s@[i + q] == t@[q],
        decreases t.len() - j,
    {
        let sl = s.len();
        assert(i + j < sl);
        if s[i + j] != t[j] {
            assert(s@.subrange(i as int, i + t@.len())[j as int] != t@[j as int]);
            return false;
        }
        j = j + 1;
    }
    assert(s@.subrange(i as int, i + t@.len()) =~= t@);
    true
}

/// `str::find` with a string pattern: the first index at which `t`
/// occurs in `s` (counted in characters).
pub fn find_sub(s: &str, t: &str) -> (r: Option<usize>)
    ensures
        match r {
            Some(i) => first_occurrence(s@, t@, 0) == Some(i as int),
            None => first_occurrence(s@, t@, 0) is None,
        },
{
    let x = chars_of(s);
    let y = chars_of(t);
    if y.len() > x.len() {
        return None;
    }
    let last = x.len() - y.len();
    let mut i: usize = 0;
    while i <= last
        invariant
            last + y@.len() == x@.len(),
            x@ == s@,
            y@ == t@,
            i <= last + 1,
            first_occurrence(s@, t@, i as int) == first_occurrence(s@, t@, 0),
        decreases last + 1 - i,
    {
        if matches_at(&x, &y, i) {
            return Some(i);
        }
        if i == last {
            return None;
        }
        i = i + 1;
    }
    None
}

/// `str::contains` with a string pattern.
pub fn contains_sub(s: &str, t: &str) -> (r: bool)
    ensures
        r == first_occurrence(s@, t@, 0) is Some,
{
    find_sub(s, t).is_some()
}

} // verus!
