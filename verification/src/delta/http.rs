//! The HTTP/1.1 request text the transparent proxy reads: line and token splitting,
//! header fields, the request head terminator and the declared body length.
//!
//! Request bytes are read as text the way `String::from_utf8_lossy` decodes them; every
//! other step works on the decoded characters.
use vstd::prelude::*;

verus! {

/// The characters `String::from_utf8_lossy` decodes from `bytes`.
pub uninterp spec fn utf8_lossy(bytes: Seq<u8>) -> Seq<char>;

/// Decodes bytes as UTF-8 text, replacing each invalid sequence with U+FFFD, by
/// `String::from_utf8_lossy`. What is claimed: the result is `utf8_lossy` of the bytes, and
/// valid UTF-8 decodes to its characters. The replacement of invalid sequences is left unsaid.
#[verifier::external_body]
pub(crate) fn decode_utf8_lossy(bytes: &[u8]) -> (r: Vec<char>)
    ensures
        r@ == utf8_lossy(bytes@),
        vstd::utf8::valid_utf8(bytes@) ==> r@ == vstd::utf8::decode_utf8(bytes@),
{
    String::from_utf8_lossy(bytes).chars().collect()
}

/// Collects characters into a `String`, by `FromIterator<char>` for `String`. What is
/// claimed: the string holds exactly those characters, in order.
#[verifier::external_body]
pub(crate) fn string_from_chars(cs: &[char]) -> (r: String)
    ensures
        r@ == cs@,
{
    cs.iter().collect()
}

/// Unicode `White_Space`, the property `char::is_whitespace` tests.
pub open spec fn is_unicode_whitespace(c: char) -> bool {
    ||| ('\u{9}' <= c && c <= '\u{d}')
    ||| c == ' '
    ||| c == '\u{85}'
    ||| c == '\u{a0}'
    ||| c == '\u{1680}'
    ||| ('\u{2000}' <= c && c <= '\u{200a}')
    ||| c == '\u{2028}'
    ||| c == '\u{2029}'
    ||| c == '\u{202f}'
    ||| c == '\u{205f}'
    ||| c == '\u{3000}'
}

/// Whether `c` is Unicode white space.
pub fn is_whitespace(c: char) -> (r: bool)
    ensures
        r == is_unicode_whitespace(c),
{
    ('\u{9}' <= c && c <= '\u{d}') || c == ' ' || c == '\u{85}' || c == '\u{a0}' || c == '\u{1680}'
        || ('\u{2000}' <= c && c <= '\u{200a}') || c == '\u{2028}' || c == '\u{2029}' || c == '\u{202f}'
        || c == '\u{205f}' || c == '\u{3000}'
}

/// The predicate "is the character `c`".
pub open spec fn is_char(c: char) -> spec_fn(char) -> bool {
    |x: char| x == c
}

/// The predicate "is white space".
pub open spec fn is_space() -> spec_fn(char) -> bool {
    |x: char| is_unicode_whitespace(x)
}

/// The predicate "is not white space".
pub open spec fn is_non_space() -> spec_fn(char) -> bool {
    |x: char| !is_unicode_whitespace(x)
}

/// Index of the first character of `s` satisfying `p`, or `s.len()` when there is none.
pub open spec fn first_where(s: Seq<char>, p: spec_fn(char) -> bool) -> int
    decreases s.len(),
{
    if s.len() == 0 {
        0
    } else if p(s[0]) {
        0
    } else {
        1 + first_where(s.drop_first(), p)
    }
}

/// [`first_where`] is the least index satisfying `p`.
pub proof fn lemma_first_where(s: Seq<char>, p: spec_fn(char) -> bool)
    ensures
        0 <= first_where(s, p) <= s.len(),
        first_where(s, p) < s.len() ==> p(s[first_where(s, p)]),
        forall|j: int| 0 <= j < first_where(s, p) ==> !p(#[trigger] s[j]),
    decreases s.len(),
{
    if s.len() > 0 && !p(s[0]) {
        lemma_first_where(s.drop_first(), p);
        assert forall|j: int| 0 <= j < first_where(s, p) implies !p(#[trigger] s[j]) by {
            if j > 0 {
                assert(s[j] == s.drop_first()[j - 1]);
            }
        }
    }
}

/// Any index that satisfies `p`, with no earlier one that does, is [`first_where`].
pub proof fn lemma_first_where_unique(s: Seq<char>, p: spec_fn(char) -> bool, i: int)
    requires
        0 <= i <= s.len(),
        i < s.len() ==> p(s[i]),
        forall|j: int| 0 <= j < i ==> !p(#[trigger] s[j]),
    ensures
        first_where(s, p) == i,
{
    lemma_first_where(s, p);
    let f = first_where(s, p);
    if f < i {
        assert(!p(s[f]));
    } else if i < f {
        assert(!p(s[i]));
    }
}

/// Index of the first character of `s[from..]` equal to `c`, or `s.len()`.
fn find_char_from(s: &Vec<char>, from: usize, c: char) -> (r: usize)
    requires
        from <= s@.len(),
    ensures
        r == from + first_where(s@.skip(from as int), is_char(c)),
{
    let ghost t = s@.skip(from as int);
    let mut i = from;
    while i < s.len() && s[i] != c
        invariant
            from <= i <= s@.len(),
            t == s@.skip(from as int),
            forall|j: int| from <= j < i ==> s@[j] != c,
        decreases s@.len() - i,
    {
        i = i + 1;
    }
    proof {
        assert forall|j: int| 0 <= j < i - from implies !(is_char(c)(#[trigger] t[j])) by {
            assert(t[j] == s@[from + j]);
        }
        lemma_first_where_unique(t, is_char(c), i - from);
    }
    i
}

/// Copies `s[from..to]`.
pub fn copy_chars(s: &Vec<char>, from: usize, to: usize) -> (r: Vec<char>)
    requires
        from <= to <= s@.len(),
    ensures
        r@ == s@.subrange(from as int, to as int),
{
    let mut r: Vec<char> = Vec::new();
    let mut i = from;
    while i < to
        invariant
            from <= i <= to <= s@.len(),
            r@ == s@.subrange(from as int, i as int),
        decreases to - i,
    {
        r.push(s[i]);
        i = i + 1;
    }
    r
}

/// A line without the carriage return that ends it, if any.
pub open spec fn strip_cr(l: Seq<char>) -> Seq<char> {
    if l.len() > 0 && l.last() == '\r' {
        l.drop_last()
    } else {
        l
    }
}

/// The lines of a text as `str::lines` yields them: split after each `\n`, each line
/// without its `\n` and the `\r` before it; no empty line after a final `\n`.
pub open spec fn text_lines(s: Seq<char>) -> Seq<Seq<char>>
    decreases s.len(),
{
    if s.len() == 0 {
        Seq::empty()
    } else {
        let i = first_where(s, is_char('\n'));
        if i >= s.len() {
            seq![s]
        } else {
            proof {
                lemma_first_where(s, is_char('\n'));
            }
            seq![strip_cr(s.take(i))] + text_lines(s.skip(i + 1))
        }
    }
}

/// The character sequences held by a vector of character vectors.
pub open spec fn char_rows(v: Seq<Vec<char>>) -> Seq<Seq<char>> {
    v.map_values(|r: Vec<char>| r@)
}

/// Splits a text into its lines, as `str::lines` does.
pub fn split_lines(text: &Vec<char>) -> (r: Vec<Vec<char>>)
    ensures
        char_rows(r@) == text_lines(text@),
{
    let n = text.len();
    let mut lines: Vec<Vec<char>> = Vec::new();
    let mut pos: usize = 0;
    assert(text@.skip(0) =~= text@);
    assert(char_rows(lines@) + text_lines(text@) =~= text_lines(text@));
    while pos < n
        invariant
            n == text@.len(),
            pos <= n,
            char_rows(lines@) + text_lines(text@.skip(pos as int)) == text_lines(text@),
        decreases n - pos,
    {
        let ghost rest = text@.skip(pos as int);
        let nl = find_char_from(text, pos, '\n');
        proof {
            lemma_first_where(rest, is_char('\n'));
        }
        let ghost old_lines = lines@;
        if nl >= n {
            let line = copy_chars(text, pos, n);
            assert(line@ =~= rest);
            lines.push(line);
            assert(char_rows(lines@) =~= char_rows(old_lines) + seq![rest]);
            assert(text@.skip(n as int) =~= Seq::<char>::empty());
            assert(text_lines(rest) == seq![rest]);
            pos = n;
        } else {
            let end = if nl > pos && text[nl - 1] == '\r' { nl - 1 } else { nl };
            let line = copy_chars(text, pos, end);
            assert(rest.take(nl - pos) =~= text@.subrange(pos as int, nl as int));
            assert(line@ =~= strip_cr(rest.take(nl - pos)));
            lines.push(line);
            assert(char_rows(lines@) =~= char_rows(old_lines) + seq![line@]);
            assert(rest.skip(nl - pos + 1) =~= text@.skip(nl + 1));
            assert(text_lines(rest) == seq![strip_cr(rest.take(nl - pos))] + text_lines(text@.skip(nl + 1)));
            pos = nl + 1;
        }
    }
    assert(text@.skip(pos as int) =~= Seq::<char>::empty());
    assert(char_rows(lines@) + Seq::<Seq<char>>::empty() =~= char_rows(lines@));
    lines
}

/// The tokens of a text separated by white space, as `str::split_whitespace` yields them.
pub open spec fn whitespace_tokens(s: Seq<char>) -> Seq<Seq<char>>
    decreases s.len(),
{
    if s.len() == 0 {
        Seq::empty()
    } else if is_unicode_whitespace(s[0]) {
        whitespace_tokens(s.drop_first())
    } else {
        let j = first_where(s, is_space());
        proof {
            lemma_first_where(s, is_space());
        }
        seq![s.take(j)] + whitespace_tokens(s.skip(j))
    }
}

/// Splits a text into its white-space separated tokens.
pub fn split_whitespace(text: &Vec<char>) -> (r: Vec<Vec<char>>)
    ensures
        char_rows(r@) == whitespace_tokens(text@),
{
    let n = text.len();
    let mut tokens: Vec<Vec<char>> = Vec::new();
    let mut pos: usize = 0;
    assert(text@.skip(0) =~= text@);
    assert(char_rows(tokens@) + whitespace_tokens(text@) =~= whitespace_tokens(text@));
    while pos < n
        invariant
            n == text@.len(),
            pos <= n,
            char_rows(tokens@) + whitespace_tokens(text@.skip(pos as int)) == whitespace_tokens(text@),
        decreases n - pos,
    {
        let ghost rest = text@.skip(pos as int);
        if is_whitespace(text[pos]) {
            assert(rest.drop_first() =~= text@.skip(pos + 1));
            pos = pos + 1;
        } else {
            let mut end = pos;
            while end < n && !is_whitespace(text[end])
                invariant
                    n == text@.len(),
                    pos <= end <= n,
                    forall|j: int| pos <= j < end ==> !is_unicode_whitespace(text@[j]),
                decreases n - end,
            {
                end = end + 1;
            }
            proof {
                assert forall|j: int| 0 <= j < end - pos implies !(is_space()(#[trigger] rest[j])) by {
                    assert(rest[j] == text@[pos + j]);
                }
                lemma_first_where_unique(rest, is_space(), end - pos);
            }
            let ghost old_tokens = tokens@;
            let token = copy_chars(text, pos, end);
            assert(token@ =~= rest.take(end - pos));
            tokens.push(token);
            assert(char_rows(tokens@) =~= char_rows(old_tokens) + seq![token@]);
            assert(rest.skip(end - pos) =~= text@.skip(end as int));
            pos = end;
        }
    }
    assert(text@.skip(pos as int) =~= Seq::<char>::empty());
    assert(char_rows(tokens@) + Seq::<Seq<char>>::empty() =~= char_rows(tokens@));
    tokens
}

/// Number of white-space characters at the end of `s`.
pub open spec fn trailing_whitespace(s: Seq<char>) -> int
    decreases s.len(),
{
    if s.len() == 0 {
        0
    } else if is_unicode_whitespace(s.last()) {
        1 + trailing_whitespace(s.drop_last())
    } else {
        0
    }
}

/// A text without its leading and trailing white space, as `str::trim` yields it.
pub open spec fn trim(s: Seq<char>) -> Seq<char> {
    let t = s.skip(first_where(s, is_non_space()));
    t.take(t.len() - trailing_whitespace(t))
}

proof fn lemma_trailing_whitespace(s: Seq<char>, k: int)
    requires
        0 <= k <= s.len(),
        forall|j: int| k <= j < s.len() ==> is_unicode_whitespace(#[trigger] s[j]),
        k == 0 || !is_unicode_whitespace(s[k - 1]),
    ensures
        trailing_whitespace(s) == s.len() - k,
    decreases s.len(),
{
    if s.len() > k {
        let t = s.drop_last();
        assert forall|j: int| k <= j < t.len() implies is_unicode_whitespace(#[trigger] t[j]) by {
            assert(t[j] == s[j]);
        }
        if k > 0 {
            assert(t[k - 1] == s[k - 1]);
        }
        lemma_trailing_whitespace(t, k);
    }
}

/// Trims white space from both ends of a text.
pub fn trim_chars(s: &Vec<char>) -> (r: Vec<char>)
    ensures
        r@ == trim(s@),
{
    let n = s.len();
    let mut a: usize = 0;
    while a < n && is_whitespace(s[a])
        invariant
            n == s@.len(),
            a <= n,
            forall|j: int| 0 <= j < a ==> is_unicode_whitespace(s@[j]),
        decreases n - a,
    {
        a = a + 1;
    }
    proof {
        assert forall|j: int| 0 <= j < a implies !(is_non_space()(#[trigger] s@[j])) by {}
        lemma_first_where_unique(s@, is_non_space(), a as int);
    }
    let mut b: usize = n;
    while b > a && is_whitespace(s[b - 1])
        invariant
            n == s@.len(),
            a <= b <= n,
            forall|j: int| b <= j < n ==> is_unicode_whitespace(s@[j]),
        decreases b - a,
    {
        b = b - 1;
    }
    proof {
        let t = s@.skip(a as int);
        assert forall|j: int| b - a <= j < t.len() implies is_unicode_whitespace(#[trigger] t[j]) by {
            assert(t[j] == s@[a + j]);
        }
        if b > a {
            assert(t[b - a - 1] == s@[b - 1]);
        }
        lemma_trailing_whitespace(t, b - a);
        assert(t.take(b - a) =~= s@.subrange(a as int, b as int));
    }
    copy_chars(s, a, b)
}

/// The text before and after the first occurrence of `c`, as `str::split_once` splits it.
pub open spec fn split_once(s: Seq<char>, c: char) -> Option<(Seq<char>, Seq<char>)> {
    let i = first_where(s, is_char(c));
    if i < s.len() {
        Some((s.take(i), s.skip(i + 1)))
    } else {
        None
    }
}

/// Splits a text at the first occurrence of `c`.
pub fn split_once_chars(s: &Vec<char>, c: char) -> (r: Option<(Vec<char>, Vec<char>)>)
    ensures
        match split_once(s@, c) {
            Some((a, b)) => r matches Some(p) && p.0@ == a && p.1@ == b,
            None => r is None,
        },
{
    let i = find_char_from(s, 0, c);
    assert(s@.skip(0) =~= s@);
    proof {
        lemma_first_where(s@, is_char(c));
    }
    if i < s.len() {
        let a = copy_chars(s, 0, i);
        let b = copy_chars(s, i + 1, s.len());
        assert(a@ =~= s@.take(i as int));
        assert(b@ =~= s@.skip(i + 1));
        Some((a, b))
    } else {
        None
    }
}

/// An ASCII decimal digit.
pub open spec fn is_ascii_digit(c: char) -> bool {
    '0' <= c && c <= '9'
}

/// Value of a digit character.
pub open spec fn digit_value(c: char) -> int {
    c as int - '0' as int
}

/// Value of a string of decimal digits.
pub open spec fn digits_value(s: Seq<char>) -> int
    decreases s.len(),
{
    if s.len() == 0 {
        0
    } else {
        digits_value(s.drop_last()) * 10 + digit_value(s.last())
    }
}

/// The digits part of an unsigned number: the text without one leading `+`.
pub open spec fn unsigned_digits(s: Seq<char>) -> Seq<char> {
    if s.len() > 0 && s[0] == '+' { s.drop_first() } else { s }
}

/// A `usize` parsed as `str::parse::<usize>` parses it: an optional `+`, then one or more
/// decimal digits whose value fits.
pub open spec fn parse_usize(s: Seq<char>) -> Option<usize> {
    let d = unsigned_digits(s);
    if d.len() > 0 && (forall|i: int| 0 <= i < d.len() ==> is_ascii_digit(#[trigger] d[i])) && digits_value(d) <= usize::MAX {
        Some(digits_value(d) as usize)
    } else {
        None
    }
}

proof fn lemma_digits_value_grows(s: Seq<char>, k: int)
    requires
        0 <= k <= s.len(),
        forall|i: int| 0 <= i < s.len() ==> is_ascii_digit(#[trigger] s[i]),
    ensures
        0 <= digits_value(s.take(k)) <= digits_value(s),
    decreases s.len() - k,
{
    if k < s.len() {
        lemma_digits_value_grows(s, k + 1);
        assert(s.take(k + 1).drop_last() =~= s.take(k));
        lemma_digits_value_nonneg(s.take(k));
    } else {
        assert(s.take(k) =~= s);
        lemma_digits_value_nonneg(s);
    }
}

proof fn lemma_digits_value_nonneg(s: Seq<char>)
    requires
        forall|i: int| 0 <= i < s.len() ==> is_ascii_digit(#[trigger] s[i]),
    ensures
        digits_value(s) >= 0,
    decreases s.len(),
{
    if s.len() > 0 {
        lemma_digits_value_nonneg(s.drop_last());
    }
}

/// An unsigned number as `str::parse` reads it for an integer type whose largest value is
/// `max`: an optional `+`, then one or more decimal digits whose value is at most `max`.
pub open spec fn parse_bounded(s: Seq<char>, max: int) -> Option<nat> {
    let d = unsigned_digits(s);
    if d.len() > 0 && (forall|i: int| 0 <= i < d.len() ==> is_ascii_digit(#[trigger] d[i])) && digits_value(d) <= max {
        Some(digits_value(d) as nat)
    } else {
        None
    }
}

/// Parses an unsigned number no larger than `max`, as `str::parse` does for an unsigned
/// integer type whose largest value is `max`.
pub fn parse_bounded_chars(s: &Vec<char>, max: u64) -> (r: Option<u64>)
    ensures
        match parse_bounded(s@, max as int) {
            Some(v) => r matches Some(x) && x as int == v,
            None => r is None,
        },
        r matches Some(x) ==> x <= max,
{
    let n = s.len();
    let start: usize = if n > 0 && s[0] == '+' { 1 } else { 0 };
    let ghost d = unsigned_digits(s@);
    assert(d =~= s@.skip(start as int));
    if start == n {
        assert(d.len() == 0);
        return None;
    }
    let mut value: u64 = 0;
    let mut i = start;
    while i < n
        invariant
            n == s@.len(),
            start <= i <= n,
            start < n,
            d == s@.skip(start as int),
            d == unsigned_digits(s@),
            forall|j: int| 0 <= j < i - start ==> is_ascii_digit(#[trigger] d[j]),
            value == digits_value(d.take(i - start)),
            value <= max,
        decreases n - i,
    {
        let c = s[i];
        if !('0' <= c && c <= '9') {
            assert(!is_ascii_digit(d[i - start]));
            assert(!(forall|j: int| 0 <= j < d.len() ==> is_ascii_digit(#[trigger] d[j])));
            return None;
        }
        let digit = (c as u32 - '0' as u32) as u64;
        assert(d.take(i - start + 1).drop_last() =~= d.take(i - start));
        assert(d[i - start] == c);
        if digit > max || value > (max - digit) / 10 {
            proof {
                assert(digits_value(d.take(i - start + 1)) == value * 10 + digit);
                assert(value * 10 + digit > max) by (nonlinear_arith)
                    requires digit > max || (digit <= max && value > (max - digit) / 10), digit <= 9;
                if forall|j: int| 0 <= j < d.len() ==> is_ascii_digit(#[trigger] d[j]) {
                    lemma_digits_value_grows(d, i - start + 1);
                    assert(digits_value(d) > max);
                }
            }
            return None;
        }
        assert(value * 10 + digit <= max) by (nonlinear_arith)
            requires digit <= max, value <= (max - digit) / 10, digit <= 9;
        value = value * 10 + digit;
        i = i + 1;
    }
    assert(d.take(n - start) =~= d);
    Some(value)
}

/// Parses a `usize` as `str::parse::<usize>` does.
pub fn parse_usize_chars(s: &Vec<char>) -> (r: Option<usize>)
    ensures
        r == parse_usize(s@),
{
    let max = usize::MAX as u64;
    assert(max as int == usize::MAX as int);
    match parse_bounded_chars(s, max) {
        Some(v) => {
            proof {
                lemma_digits_value_nonneg(unsigned_digits(s@));
            }
            Some(v as usize)
        },
        None => None,
    }
}

/// The header name that declares the body length, in lower case.
pub open spec fn content_length_name() -> Seq<char> {
    seq!['c', 'o', 'n', 't', 'e', 'n', 't', '-', 'l', 'e', 'n', 'g', 't', 'h']
}

/// A character with ASCII upper-case letters mapped to lower case, as a code point.
pub open spec fn ascii_lower_code(c: char) -> u32 {
    if 'A' <= c && c <= 'Z' {
        (c as u32 + 32) as u32
    } else {
        c as u32
    }
}

/// Two texts are equal ignoring ASCII case, as `str::eq_ignore_ascii_case` compares them.
pub open spec fn eq_ignore_ascii_case(a: Seq<char>, b: Seq<char>) -> bool {
    a.len() == b.len() && forall|i: int| 0 <= i < a.len() ==> ascii_lower_code(#[trigger] a[i]) == ascii_lower_code(b[i])
}

/// The declared body length of one header line, when it names `Content-Length` and its
/// value parses.
pub open spec fn line_content_length(line: Seq<char>) -> Option<usize> {
    match split_once(line, ':') {
        Some((name, value)) => if eq_ignore_ascii_case(name, content_length_name()) {
            parse_usize(trim(value))
        } else {
            None
        },
        None => None,
    }
}

/// The first declared body length among `lines`.
pub open spec fn first_content_length(lines: Seq<Seq<char>>) -> Option<usize>
    decreases lines.len(),
{
    if lines.len() == 0 {
        None
    } else {
        match line_content_length(lines[0]) {
            Some(n) => Some(n),
            None => first_content_length(lines.drop_first()),
        }
    }
}

/// The declared body length of a request head text: the first line that names
/// `Content-Length` (in any ASCII case) and whose value parses.
pub open spec fn text_content_length(text: Seq<char>) -> Option<usize> {
    first_content_length(text_lines(text))
}

fn ascii_lower(c: char) -> (r: u32)
    ensures
        r == ascii_lower_code(c),
{
    if 'A' <= c && c <= 'Z' {
        c as u32 + 32
    } else {
        c as u32
    }
}

fn is_content_length_name(name: &Vec<char>) -> (r: bool)
    ensures
        r == eq_ignore_ascii_case(name@, content_length_name()),
{
    let expected: Vec<char> = vec!['c', 'o', 'n', 't', 'e', 'n', 't', '-', 'l', 'e', 'n', 'g', 't', 'h'];
    assert(expected@ =~= content_length_name());
    if name.len() != expected.len() {
        return false;
    }
    let mut i: usize = 0;
    while i < name.len()
        invariant
            name@.len() == expected@.len(),
            expected@ == content_length_name(),
            i <= name@.len(),
            forall|j: int| 0 <= j < i ==> ascii_lower_code(#[trigger] name@[j]) == ascii_lower_code(expected@[j]),
        decreases name@.len() - i,
    {
        if ascii_lower(name[i]) != ascii_lower(expected[i]) {
            return false;
        }
        i = i + 1;
    }
    true
}

/// Declared body length of a request head that is already decoded to text.
pub fn content_length_of_text(text: &Vec<char>) -> (r: Option<usize>)
    ensures
        r == text_content_length(text@),
{
    let lines = split_lines(text);
    let mut k: usize = 0;
    assert(char_rows(lines@).skip(0) =~= char_rows(lines@));
    while k < lines.len()
        invariant
            char_rows(lines@) == text_lines(text@),
            k <= lines@.len(),
            first_content_length(text_lines(text@)) == first_content_length(char_rows(lines@).skip(k as int)),
        decreases lines@.len() - k,
    {
        let ghost rest = char_rows(lines@).skip(k as int);
        assert(rest[0] == lines@[k as int]@);
        assert(rest.drop_first() =~= char_rows(lines@).skip(k + 1));
        match split_once_chars(&lines[k], ':') {
            Some((name, value)) => {
                if is_content_length_name(&name) {
                    let trimmed = trim_chars(&value);
                    match parse_usize_chars(&trimmed) {
                        Some(n) => {
                            return Some(n);
                        },
                        None => {},
                    }
                }
            },
            None => {},
        }
        k = k + 1;
    }
    assert(char_rows(lines@).skip(k as int) =~= Seq::<Seq<char>>::empty());
    None
}

/// Declared body length from the request head, if the header is present.
pub fn declared_content_length(head: &[u8]) -> (r: Option<usize>)
    ensures
        r == text_content_length(utf8_lossy(head@)),
{
    let text = decode_utf8_lossy(head);
    content_length_of_text(&text)
}

/// The request head terminator `\r\n\r\n` starts at position `i` of `s`.
pub open spec fn head_end_at(s: Seq<u8>, i: int) -> bool {
    0 <= i && i + 4 <= s.len() && s[i] == 13u8 && s[i + 1] == 10u8 && s[i + 2] == 13u8 && s[i + 3] == 10u8
}

/// Offset of the first request head terminator, marking the start of the body.
#[verifier::opaque]
pub open spec fn head_end(s: Seq<u8>) -> Option<int> {
    if exists|i: int| head_end_at(s, i) {
        Some(choose|i: int| head_end_at(s, i) && forall|j: int| 0 <= j < i ==> !head_end_at(s, j))
    } else {
        None
    }
}

/// Offset of the request head terminator, marking the start of the body.
pub fn find_head_end(buf: &[u8]) -> (r: Option<usize>)
    ensures
        head_end(buf@) is None <==> r is None,
        r matches Some(i) ==> head_end(buf@) == Some(i as int) && head_end_at(buf@, i as int),
{
    let n = buf.len();
    let mut i: usize = 0;
    while i < n && n - i >= 4
        invariant
            n == buf@.len(),
            forall|j: int| 0 <= j < i ==> !head_end_at(buf@, j),
        decreases n - i,
    {
        if buf[i] == 13 && buf[i + 1] == 10 && buf[i + 2] == 13 && buf[i + 3] == 10 {
            reveal(head_end);
            assert(head_end_at(buf@, i as int));
            let ghost c = choose|k: int| head_end_at(buf@, k) && forall|j: int| 0 <= j < k ==> !head_end_at(buf@, j);
            assert(c == i) by {
                if c < i {
                    assert(!head_end_at(buf@, c));
                } else if c > i {
                    assert(!head_end_at(buf@, i as int));
                }
            }
            return Some(i);
        }
        i = i + 1;
    }
    assert forall|j: int| !head_end_at(buf@, j) by {
        if 0 <= j < i {
        } else {
        }
    }
    reveal(head_end);
    None
}

/// Whether the buffered bytes hold a complete request head and the whole body it declares.
pub open spec fn request_complete(buf: Seq<u8>) -> bool {
    match head_end(buf) {
        Some(h) => match text_content_length(utf8_lossy(buf.take(h))) {
            Some(len) => buf.len() - (h + 4) >= len,
            None => true,
        },
        None => false,
    }
}

/// Whether the buffered bytes hold a complete request head and its declared body.
pub fn request_is_complete(buf: &[u8]) -> (r: bool)
    ensures
        r == request_complete(buf@),
{
    let found = find_head_end(buf);
    match found {
        Some(head_end) => {
            assert(head_end + 4 <= buf@.len());
            let head = &buf[0..head_end];
            assert(head@ =~= buf@.take(head_end as int));
            match declared_content_length(head) {
                Some(len) => buf.len() - (head_end + 4) >= len,
                None => true,
            }
        },
        None => false,
    }
}


/// Ceiling of the buffer one intercepted request is read into.
pub const REQUEST_BUFFER_BYTES: usize = 16384;

/// Takes the bytes of one read into the request buffer and decides whether reading stops:
/// at the end of the stream (an empty read), once the buffer holds a complete request, or
/// when the buffer is full.
pub fn absorb_read(buf: &mut Vec<u8>, chunk: &[u8]) -> (stop: bool)
    requires
        old(buf)@.len() + chunk@.len() <= REQUEST_BUFFER_BYTES,
    ensures
        final(buf)@ == old(buf)@ + chunk@,
        stop == (chunk@.len() == 0 || request_complete(final(buf)@) || final(buf)@.len() == REQUEST_BUFFER_BYTES),
{
    if chunk.len() == 0 {
        assert(buf@ =~= old(buf)@ + chunk@);
        return true;
    }
    let mut i: usize = 0;
    while i < chunk.len()
        invariant
            i <= chunk@.len(),
            buf@ == old(buf)@ + chunk@.take(i as int),
        decreases chunk@.len() - i,
    {
        buf.push(chunk[i]);
        assert(chunk@.take(i + 1) =~= chunk@.take(i as int).push(chunk@[i as int]));
        i = i + 1;
    }
    assert(chunk@.take(chunk@.len() as int) =~= chunk@);
    request_is_complete(buf.as_slice()) || buf.len() == REQUEST_BUFFER_BYTES
}

} // verus!
