//! EditorConfig section globs: a glob is turned into a regular
//! expression that is anchored at the directory of the EditorConfig file.
use vstd::prelude::*;
use crate::matcher::{
    escape, escape_all, is_meta, is_meta_character, literal, regex_captures, regex_compiles,
    CompiledRegex,
};
use crate::text::{chars_of, string_from_chars};

verus! {

// ----------------------------------------------------------------------------
// Numbers
// ----------------------------------------------------------------------------

/// An ASCII decimal digit.
pub open spec fn is_digit(c: char) -> bool {
    '0' <= c && c <= '9'
}

/// Whether every character of `s` is an ASCII digit.
pub open spec fn all_digits(s: Seq<char>) -> bool {
    forall|i: int| 0 <= i < s.len() ==> is_digit(#[trigger] s[i])
}

/// The value of a string of decimal digits.
pub open spec fn digits_value(s: Seq<char>) -> int
    decreases s.len(),
{
    if s.len() == 0 {
        0
    } else {
        digits_value(s.drop_last()) * 10 + (s.last() as int - '0' as int)
    }
}

/// `s` parsed as an `i32` the way `str::parse::<i32>` does: an optional `+`
/// or `-`, then one or more ASCII digits, with a value that fits.
pub open spec fn parse_i32_spec(s: Seq<char>) -> Option<i32> {
    let neg = s.len() > 0 && s[0] == '-';
    let digits = if s.len() > 0 && (s[0] == '-' || s[0] == '+') {
        s.drop_first()
    } else {
        s
    };
    let v = if neg {
        -digits_value(digits)
    } else {
        digits_value(digits)
    };
    if digits.len() > 0 && all_digits(digits) && i32::MIN <= v <= i32::MAX {
        Some(v as i32)
    } else {
        None
    }
}

/// The first index `d >= k` with `s[d] == '.'` and `s[d + 1] == '.'`.
pub open spec fn find_dots(s: Seq<char>, k: int) -> Option<int>
    decreases s.len() - k,
{
    if k < 0 || k + 1 >= s.len() {
        None
    } else if s[k] == '.' && s[k + 1] == '.' {
        Some(k)
    } else {
        find_dots(s, k + 1)
    }
}

/// A numeric range `{num1..num2}`: the braces around two `i32` numbers that
/// the first `..` separates.
pub open spec fn brace_range(s: Seq<char>) -> Option<(i32, i32)> {
    if s.len() >= 2 && s[0] == '{' && s.last() == '}' {
        let inner = s.subrange(1, s.len() - 1);
        match find_dots(inner, 0) {
            Some(d) => match (parse_i32_spec(inner.take(d)), parse_i32_spec(inner.skip(d + 2))) {
                (Some(a), Some(b)) => Some((a, b)),
                _ => None,
            },
            None => None,
        }
    } else {
        None
    }
}

// ----------------------------------------------------------------------------
// Scanning braces
// ----------------------------------------------------------------------------

/// Whether the braces of `p` from index `k` on are paired, given the state of
/// the scan so far (a pending backslash, opening and closing braces seen).
/// A brace after a backslash does not count, and a closing brace may never
/// outnumber the opening ones.
pub open spec fn paired_from(p: Seq<char>, k: int, escaped: bool, left: int, right: int) -> bool
    decreases p.len() - k,
{
    if k < 0 || k >= p.len() {
        left == right
    } else {
        let c = p[k];
        let e2 = !escaped && c == '\\';
        let l2 = if !escaped && c == '{' {
            left + 1
        } else {
            left
        };
        let r2 = if !escaped && c == '}' {
            right + 1
        } else {
            right
        };
        if l2 < r2 {
            false
        } else {
            paired_from(p, k + 1, e2, l2, r2)
        }
    }
}

/// Whether the unescaped braces of `p` are paired.
pub open spec fn braces_paired(p: Seq<char>) -> bool {
    paired_from(p, 0, false, 0, 0)
}

/// Scanning `p` from `k`: the index of the first unescaped `}`, or `None`
/// where an unescaped `,` or the end of `p` comes first.
pub open spec fn close_from(p: Seq<char>, k: int, escaped: bool) -> Option<int>
    decreases p.len() - k,
{
    if k < 0 || k >= p.len() {
        None
    } else if escaped {
        close_from(p, k + 1, false)
    } else if p[k] == '\\' {
        close_from(p, k + 1, true)
    } else if p[k] == '}' {
        Some(k)
    } else if p[k] == ',' {
        None
    } else {
        close_from(p, k + 1, false)
    }
}

// ----------------------------------------------------------------------------
// From globs to regexes
// ----------------------------------------------------------------------------

/// What the last member read in a bracket allows: nothing yet, the start
/// of a range, or nothing since it ended a range.
pub open spec fn member_state(state: int) -> int {
    if state == 2 {
        0
    } else {
        1
    }
}

/// The regex of `[`...`]` from index `k` (after the `[` and an optional
/// `!`): each character as a literal, a backslash making the next one
/// literal, up to and including the closing `]`; a `-` between two members
/// stays a range, unless the member before it ends a range. `state` is 1
/// where the member just read may start a range, 2 right after the `-` of a
/// range, and 0 otherwise. Also the index after the closing `]`.
pub open spec fn bracket_body(p: Seq<char>, k: int, escaped: bool, state: int) -> (
    Seq<char>,
    int,
)
    decreases p.len() - k,
{
    if k < 0 || k >= p.len() {
        (seq![], p.len() as int)
    } else if escaped {
        let r = bracket_body(p, k + 1, false, member_state(state));
        (literal(p[k]) + r.0, r.1)
    } else if p[k] == '\\' {
        bracket_body(p, k + 1, true, state)
    } else if p[k] == ']' {
        (seq![']'], k + 1)
    } else if p[k] == '-' && state == 1 && k + 1 < p.len() && p[k + 1] != ']' {
        let r = bracket_body(p, k + 1, false, 2);
        (seq!['-'] + r.0, r.1)
    } else {
        let r = bracket_body(p, k + 1, false, member_state(state));
        (literal(p[k]) + r.0, r.1)
    }
}

/// The regex of a numeric range: an optionally signed number, captured.
pub open spec fn range_regex() -> Seq<char> {
    seq!['(', '[', '\\', '+', '\\', '-', ']', '?', '\\', 'd', '+', ')']
}

/// The regex of a character after a backslash.
pub open spec fn escaped_regex(c: char) -> Seq<char> {
    if is_meta(c) {
        seq!['\\', c]
    } else {
        seq!['\\', '\\', c]
    }
}

/// One level deeper in braces, saturating.
pub open spec fn deeper(level: u32) -> u32 {
    if level < u32::MAX {
        (level + 1) as u32
    } else {
        level
    }
}

/// One level shallower in braces, stopping at zero.
pub open spec fn shallower(level: u32) -> u32 {
    if level > 0 {
        (level - 1) as u32
    } else {
        0
    }
}

/// The token of `p` that starts at index `i`: its regex, the
/// ranges it adds, the index after it and the brace level after it.
/// `paired` says whether the braces of the whole pattern are paired; where
/// they are not, braces are literal.
pub open spec fn token(p: Seq<char>, i: int, paired: bool, level: u32) -> (
    Seq<char>,
    Seq<(i32, i32)>,
    int,
    u32,
) {
    let c = p[i];
    let none: Seq<(i32, i32)> = seq![];
    if c == '\\' {
        if i + 1 < p.len() {
            (escaped_regex(p[i + 1]), none, i + 2, level)
        } else {
            (seq!['\\', '\\'], none, i + 1, level)
        }
    } else if c == '?' {
        (seq!['[', '^', '/', ']'], none, i + 1, level)
    } else if c == '*' {
        if i + 1 < p.len() && p[i + 1] == '*' {
            (seq!['.', '*'], none, i + 2, level)
        } else {
            (seq!['[', '^', '/', ']', '*'], none, i + 1, level)
        }
    } else if c == '[' {
        if i + 1 < p.len() && p[i + 1] == '!' {
            let b = bracket_body(p, i + 2, false, 0);
            (seq!['[', '^'] + b.0, none, b.1, level)
        } else {
            let b = bracket_body(p, i + 1, false, 0);
            (seq!['['] + b.0, none, b.1, level)
        }
    } else if c == '{' {
        if !paired {
            (seq!['\\', '{'], none, i + 1, level)
        } else {
            match close_from(p, i, false) {
                Some(j) => {
                    let s = p.subrange(i, j + 1);
                    match brace_range(s) {
                        Some(r) => (range_regex(), seq![r], j + 1, level),
                        None => (escape_all(s), none, j + 1, level),
                    }
                },
                None => (seq!['(', '?', ':'], none, i + 1, deeper(level)),
            }
        }
    } else if c == '}' {
        if !paired {
            (seq!['\\', '}'], none, i + 1, level)
        } else {
            (seq![')'], none, i + 1, shallower(level))
        }
    } else if c == ',' {
        if level > 0 {
            (seq!['|'], none, i + 1, level)
        } else {
            (seq!['\\', ','], none, i + 1, level)
        }
    } else {
        (literal(c), none, i + 1, level)
    }
}

/// The regex of `p` from index `i` on, at brace level `level`: the
/// regex and the numeric ranges, in the order of their capture groups.
pub open spec fn regex_from(p: Seq<char>, i: int, paired: bool, level: u32) -> (
    Seq<char>,
    Seq<(i32, i32)>,
)
    decreases p.len() - i,
{
    if i < 0 || i >= p.len() {
        (seq![], seq![])
    } else {
        let t = token(p, i, paired, level);
        if t.2 <= i || t.2 > p.len() {
            (seq![], seq![])
        } else {
            let rest = regex_from(p, t.2, paired, t.3);
            (t.0 + rest.0, t.1 + rest.1)
        }
    }
}

/// The regex of a glob pattern, and its numeric ranges.
pub open spec fn pattern_regex(p: Seq<char>) -> (Seq<char>, Seq<(i32, i32)>) {
    regex_from(p, 0, braces_paired(p), 0)
}


// ----------------------------------------------------------------------------
// Lemmas on the scans
// ----------------------------------------------------------------------------

pub proof fn lemma_digits_value_nonneg(s: Seq<char>)
    requires
        forall|i: int| 0 <= i < s.len() ==> is_digit(#[trigger] s[i]),
    ensures
        digits_value(s) >= 0,
    decreases s.len(),
{
    if s.len() > 0 {
        lemma_digits_value_nonneg(s.drop_last());
    }
}

/// A string of digits is worth at least as much as any of its prefixes.
pub proof fn lemma_digits_value_prefix(s: Seq<char>, m: int)
    requires
        0 <= m <= s.len(),
        forall|i: int| 0 <= i < s.len() ==> is_digit(#[trigger] s[i]),
    ensures
        digits_value(s.take(m)) <= digits_value(s),
    decreases s.len(),
{
    if m < s.len() {
        lemma_digits_value_prefix(s.drop_last(), m);
        assert(s.drop_last().take(m) =~= s.take(m));
        lemma_digits_value_nonneg(s.drop_last());
    } else {
        assert(s.take(m) =~= s);
    }
}

proof fn lemma_bracket_body_advances(p: Seq<char>, k: int, escaped: bool, state: int)
    requires
        0 <= k <= p.len(),
    ensures
        k <= bracket_body(p, k, escaped, state).1 <= p.len(),
    decreases p.len() - k,
{
    if k < p.len() {
        if escaped || p[k] != ']' {
            lemma_bracket_body_advances(p, k + 1, !escaped && p[k] == '\\', member_state(state));
            lemma_bracket_body_advances(p, k + 1, !escaped && p[k] == '\\', 2);
            lemma_bracket_body_advances(p, k + 1, !escaped && p[k] == '\\', state);
        }
    }
}

proof fn lemma_close_from_bounds(p: Seq<char>, k: int, escaped: bool)
    requires
        0 <= k,
    ensures
        close_from(p, k, escaped) matches Some(j) ==> k <= j < p.len() && p[j] == '}',
    decreases p.len() - k,
{
    if k < p.len() {
        lemma_close_from_bounds(p, k + 1, !escaped && p[k] == '\\');
    }
}

/// Every token moves forward and stays within the pattern.
pub proof fn lemma_token_advances(p: Seq<char>, i: int, paired: bool, level: u32)
    requires
        0 <= i < p.len(),
    ensures
        i < token(p, i, paired, level).2 <= p.len(),
{
    if p[i] == '[' {
        if i + 1 < p.len() && p[i + 1] == '!' {
            lemma_bracket_body_advances(p, i + 2, false, 0);
        } else {
            lemma_bracket_body_advances(p, i + 1, false, 0);
        }
    } else if p[i] == '{' {
        lemma_close_from_bounds(p, i, false);
    }
}

/// The regex from `i` on is that of the token at `i`, then the regex of
/// what follows the token.
pub proof fn lemma_regex_step(p: Seq<char>, i: int, paired: bool, level: u32)
    requires
        0 <= i < p.len(),
    ensures
        ({
            let t = token(p, i, paired, level);
            let rest = regex_from(p, t.2, paired, t.3);
            regex_from(p, i, paired, level) == (t.0 + rest.0, t.1 + rest.1)
        }),
{
    lemma_token_advances(p, i, paired, level);
}

// ----------------------------------------------------------------------------
// Executable scans
// ----------------------------------------------------------------------------

/// Parses `s` as an `i32`, as `str::parse::<i32>` does.
pub fn parse_i32(s: &[char]) -> (r: Option<i32>)
    ensures
        r == parse_i32_spec(s@),
{
    let n = s.len();
    let mut start: usize = 0;
    let mut neg = false;
    if n > 0 && (s[0] == '-' || s[0] == '+') {
        neg = s[0] == '-';
        start = 1;
    }
    let ghost digits = if n > 0 && (s@[0] == '-' || s@[0] == '+') {
        s@.drop_first()
    } else {
        s@
    };
    assert(digits =~= s@.subrange(start as int, n as int));
    if start == n {
        return None;
    }
    let mut k: usize = start;
    let mut acc: i64 = 0;
    while k < n
        invariant
            start <= k <= n,
            n == s@.len(),
            digits == s@.subrange(start as int, n as int),
            digits == (if n > 0 && (s@[0] == '-' || s@[0] == '+') {
                s@.drop_first()
            } else {
                s@
            }),
            neg == (n > 0 && s@[0] == '-'),
            0 <= acc <= 2147483648,
            acc == digits_value(digits.take(k - start)),
            forall|i: int| 0 <= i < k - start ==> is_digit(#[trigger] digits[i]),
        decreases n - k,
    {
        let c = s[k];
        if !('0' <= c && c <= '9') {
            assert(!is_digit(digits[k - start]));
            assert(!all_digits(digits));
            return None;
        }
        let d: i64 = (c as u32 - '0' as u32) as i64;
        assert(digits.take(k + 1 - start).drop_last() =~= digits.take(k - start));
        acc = acc * 10 + d;
        k = k + 1;
        assert(acc == digits_value(digits.take(k - start)));
        if acc > 2147483648 {
            proof {
                if all_digits(digits) {
                    lemma_digits_value_prefix(digits, k - start);
                    assert(digits_value(digits) > 2147483648);
                }
            }
            return None;
        }
    }
    assert(digits.take(n - start) =~= digits);
    if neg {
        Some((-acc) as i32)
    } else if acc > 2147483647 {
        None
    } else {
        Some(acc as i32)
    }
}

/// Parses a numeric range `{num1..num2}`.
pub fn parse_range(s: &[char]) -> (r: Option<(i32, i32)>)
    ensures
        r == brace_range(s@),
{
    let n = s.len();
    if n < 2 || s[0] != '{' || s[n - 1] != '}' {
        return None;
    }
    let inner = &s[1..n - 1];
    assert(inner@ =~= s@.subrange(1, n - 1));
    let m = inner.len();
    let mut d: usize = 0;
    while m >= 2 && d < m - 1
        invariant
            m == inner@.len(),
            n == s@.len(),
            n >= 2,
            s@[0] == '{',
            s@[n - 1] == '}',
            inner@ == s@.subrange(1, n - 1),
            d <= m,
            find_dots(inner@, 0) == find_dots(inner@, d as int),
        decreases m - d,
    {
        if inner[d] == '.' && inner[d + 1] == '.' {
            let a = parse_i32(&inner[0..d]);
            let b = parse_i32(&inner[d + 2..m]);
            assert(inner@.subrange(0, d as int) =~= inner@.take(d as int));
            assert(inner@.subrange(d + 2, m as int) =~= inner@.skip(d + 2));
            assert(find_dots(inner@, d as int) == Some(d as int));
            return match (a, b) {
                (Some(a), Some(b)) => Some((a, b)),
                _ => None,
            };
        }
        d = d + 1;
    }
    None
}

/// Whether the unescaped braces of `pattern` are paired.
pub fn check_are_braces_paired(pattern: &[char]) -> (r: bool)
    ensures
        r == braces_paired(pattern@),
{
    let n = pattern.len();
    let mut escaped = false;
    let mut left: usize = 0;
    let mut right: usize = 0;
    let mut k: usize = 0;
    while k < n
        invariant
            n == pattern@.len(),
            k <= n,
            right <= left <= k,
            braces_paired(pattern@) == paired_from(
                pattern@,
                k as int,
                escaped,
                left as int,
                right as int,
            ),
        decreases n - k,
    {
        let c = pattern[k];
        if escaped {
            escaped = false;
        } else if c == '\\' {
            escaped = true;
        } else if c == '{' {
            left = left + 1;
        } else if c == '}' {
            right = right + 1;
        }
        if left < right {
            return false;
        }
        k = k + 1;
    }
    left == right
}

/// Scans `s` from `start` (at a `{`) for the `}` that closes a single-item
/// brace: the offset from `start` of the first unescaped `}`, or `None`
/// where an unescaped `,` or the end comes first.
pub fn is_single_item_braces(s: &[char], start: usize) -> (r: Option<usize>)
    ensures
        match r {
            Some(off) => close_from(s@, start as int, false) == Some(start + off),
            None => close_from(s@, start as int, false) is None,
        },
{
    let n = s.len();
    let mut escaped = false;
    let mut k: usize = start;
    while k < n
        invariant
            n == s@.len(),
            start <= k,
            close_from(s@, start as int, false) == close_from(s@, k as int, escaped),
        decreases n - k,
    {
        let c = s[k];
        if escaped {
            escaped = false;
        } else if c == '\\' {
            escaped = true;
        } else if c == '}' {
            return Some(k - start);
        } else if c == ',' {
            return None;
        }
        k = k + 1;
    }
    None
}


// ----------------------------------------------------------------------------
// The glob parser
// ----------------------------------------------------------------------------

/// Turns a glob pattern into a regex, one token at a time.
pub struct Parser {
    pattern: Vec<char>,
    /// Index of the next character to read.
    pos: usize,
    are_braces_paired: bool,
    /// How many `{` groups are open (saturating).
    brace_level: u32,
    num_ranges: Vec<(i32, i32)>,
    regex: Vec<char>,
}

impl Parser {
    /// The pattern being read.
    pub closed spec fn pattern(&self) -> Seq<char> {
        self.pattern@
    }

    /// How many characters have been read.
    pub closed spec fn position(&self) -> nat {
        self.pos as nat
    }

    /// Everything read so far is done: what is emitted, followed by the
    /// regex of the rest, is the regex of the whole pattern.
    pub closed spec fn ready(&self) -> bool {
        let rest = regex_from(
            self.pattern@,
            self.pos as int,
            self.are_braces_paired,
            self.brace_level,
        );
        &&& self.pos <= self.pattern@.len()
        &&& self.are_braces_paired == braces_paired(self.pattern@)
        &&& pattern_regex(self.pattern@) == (self.regex@ + rest.0, self.num_ranges@ + rest.1)
    }

    /// The first character of a token has just been read, and all before it
    /// is done.
    closed spec fn bumped(&self) -> bool {
        let rest = regex_from(
            self.pattern@,
            self.pos - 1,
            self.are_braces_paired,
            self.brace_level,
        );
        &&& 1 <= self.pos <= self.pattern@.len()
        &&& self.are_braces_paired == braces_paired(self.pattern@)
        &&& pattern_regex(self.pattern@) == (self.regex@ + rest.0, self.num_ranges@ + rest.1)
    }

    /// `next` is `self` after the token whose first character was just read
    /// has been emitted.
    closed spec fn steps(&self, next: &Parser) -> bool {
        let t = token(
            self.pattern@,
            self.pos - 1,
            self.are_braces_paired,
            self.brace_level,
        );
        &&& next.pattern@ == self.pattern@
        &&& next.are_braces_paired == self.are_braces_paired
        &&& next.regex@ == self.regex@ + t.0
        &&& next.num_ranges@ == self.num_ranges@ + t.1
        &&& next.pos == t.2
        &&& next.brace_level == t.3
    }

    /// A parser at the start of `pattern`.
    pub fn new(pattern: &[char]) -> (r: Parser)
        ensures
            r.ready(),
            r.pattern() == pattern@,
            r.position() == 0,
    {
        let paired = check_are_braces_paired(pattern);
        let r = Parser {
            pattern: vstd::slice::slice_to_vec(pattern),
            pos: 0,
            are_braces_paired: paired,
            brace_level: 0,
            num_ranges: Vec::new(),
            regex: Vec::new(),
        };
        assert(r.regex@ + pattern_regex(pattern@).0 =~= pattern_regex(pattern@).0);
        assert(r.num_ranges@ + pattern_regex(pattern@).1 =~= pattern_regex(pattern@).1);
        r
    }

    /// Reads the whole pattern: its regex and its numeric ranges.
    pub fn parse(self) -> (r: (Vec<char>, Vec<(i32, i32)>))
        requires
            self.ready(),
            self.position() == 0,
        ensures
            r.0@ == pattern_regex(self.pattern()).0,
            r.1@ == pattern_regex(self.pattern()).1,
    {
        let mut me = self;
        let ghost p = me.pattern@;
        loop
            invariant
                me.ready(),
                me.pattern@ == p,
            ensures
                me.ready(),
                me.pattern@ == p,
                me.pos >= p.len(),
            decreases p.len() - me.pos,
        {
            let ghost before = me;
            match me.bump() {
                None => {
                    break ;
                },
                Some(ch) => {
                    let ghost bumped = me;
                    let ghost t = token(p, before.pos as int, me.are_braces_paired, me.brace_level);
                    proof {
                        lemma_regex_step(p, before.pos as int, me.are_braces_paired, me.brace_level);
                        lemma_token_advances(p, before.pos as int, me.are_braces_paired, me.brace_level);
                    }
                    assert(me.bumped());
                    if ch == '\\' {
                        me.parse_escape();
                    } else if ch == '?' {
                        me.parse_any();
                    } else if ch == '*' {
                        me.parse_star();
                    } else if ch == '[' {
                        me.parse_bracket();
                    } else if ch == '{' {
                        me.parse_open_brace();
                    } else if ch == '}' {
                        me.parse_close_brace();
                    } else if ch == ',' {
                        me.parse_comma();
                    } else {
                        me.parse_literal(ch);
                    }
                    assert(bumped.steps(&me));
                    proof {
                        let rest = regex_from(p, t.2, me.are_braces_paired, t.3);
                        assert(me.regex@ + rest.0 =~= bumped.regex@ + (t.0 + rest.0));
                        assert(me.num_ranges@ + rest.1 =~= bumped.num_ranges@ + (t.1 + rest.1));
                    }
                },
            }
        }
        assert(me.regex@ + seq![] =~= me.regex@);
        assert(me.num_ranges@ + seq![] =~= me.num_ranges@);
        (me.regex, me.num_ranges)
    }

    /// Reads the next character.
    fn bump(&mut self) -> (r: Option<char>)
        ensures
            final(self).pattern@ == old(self).pattern@,
            final(self).are_braces_paired == old(self).are_braces_paired,
            final(self).brace_level == old(self).brace_level,
            final(self).regex@ == old(self).regex@,
            final(self).num_ranges@ == old(self).num_ranges@,
            old(self).pos < old(self).pattern@.len() ==> r == Some(old(self).pattern@[old(
                self,
            ).pos as int]) && final(self).pos == old(self).pos + 1,
            old(self).pos >= old(self).pattern@.len() ==> r is None && final(self).pos == old(
                self,
            ).pos,
    {
        if self.pos < self.pattern.len() {
            let c = self.pattern[self.pos];
            self.pos = self.pos + 1;
            Some(c)
        } else {
            None
        }
    }

    /// The next character, without reading it.
    fn peek(&self) -> (r: Option<char>)
        ensures
            self.pos < self.pattern@.len() ==> r == Some(self.pattern@[self.pos as int]),
            self.pos >= self.pattern@.len() ==> r is None,
    {
        if self.pos < self.pattern.len() {
            Some(self.pattern[self.pos])
        } else {
            None
        }
    }

    /// Emits `ch` as a literal.
    fn parse_literal(&mut self, ch: char)
        ensures
            final(self).regex@ == old(self).regex@ + literal(ch),
            final(self).pattern@ == old(self).pattern@,
            final(self).pos == old(self).pos,
            final(self).are_braces_paired == old(self).are_braces_paired,
            final(self).brace_level == old(self).brace_level,
            final(self).num_ranges@ == old(self).num_ranges@,
    {
        if is_meta_character(ch) {
            self.regex.push('\\');
        }
        self.regex.push(ch);
        assert(self.regex@ =~= old(self).regex@ + literal(ch));
    }

    /// After `\`: the next character, escaped.
    fn parse_escape(&mut self)
        requires
            old(self).bumped(),
            old(self).pattern@[old(self).pos - 1] == '\\',
        ensures
            old(self).steps(final(self)),
    {
        match self.bump() {
            Some(ch) => {
                if is_meta_character(ch) {
                    self.regex.push('\\');
                } else {
                    self.regex.push('\\');
                    self.regex.push('\\');
                }
                self.regex.push(ch);
                assert(self.regex@ =~= old(self).regex@ + escaped_regex(ch));
            },
            None => {
                self.regex.push('\\');
                self.regex.push('\\');
                assert(self.regex@ =~= old(self).regex@ + seq!['\\', '\\']);
            },
        }
    }

    /// `?`: any one character but `/`.
    fn parse_any(&mut self)
        requires
            old(self).bumped(),
            old(self).pattern@[old(self).pos - 1] == '?',
        ensures
            old(self).steps(final(self)),
    {
        self.regex.push('[');
        self.regex.push('^');
        self.regex.push('/');
        self.regex.push(']');
        assert(self.regex@ =~= old(self).regex@ + seq!['[', '^', '/', ']']);
    }

    /// `*` matches within one path component, `**` across them.
    fn parse_star(&mut self)
        requires
            old(self).bumped(),
            old(self).pattern@[old(self).pos - 1] == '*',
        ensures
            old(self).steps(final(self)),
    {
        let next_is_star = match self.peek() {
            Some(c) => c == '*',
            None => false,
        };
        if next_is_star {
            self.bump();
            self.regex.push('.');
            self.regex.push('*');
            assert(self.regex@ =~= old(self).regex@ + seq!['.', '*']);
        } else {
            self.regex.push('[');
            self.regex.push('^');
            self.regex.push('/');
            self.regex.push(']');
            self.regex.push('*');
            assert(self.regex@ =~= old(self).regex@ + seq!['[', '^', '/', ']', '*']);
        }
    }

    /// `[...]` and `[!...]`: a character class, its members taken literally.
    fn parse_bracket(&mut self)
        requires
            old(self).bumped(),
            old(self).pattern@[old(self).pos - 1] == '[',
        ensures
            old(self).steps(final(self)),
    {
        let ghost p = self.pattern@;
        self.regex.push('[');
        let negated = match self.peek() {
            Some(c) => c == '!',
            None => false,
        };
        if negated {
            self.bump();
            self.regex.push('^');
        }
        let ghost start = self.pos as int;
        let ghost base = self.regex@;
        proof {
            lemma_bracket_body_advances(p, start, false, 0);
        }
        let mut escaped = false;
        let mut state: u8 = 0;
        loop
            invariant_except_break
                self.pattern@ == p,
                self.pos <= p.len(),
                state <= 2,
                self.are_braces_paired == old(self).are_braces_paired,
                self.brace_level == old(self).brace_level,
                self.num_ranges@ == old(self).num_ranges@,
                self.regex@ + bracket_body(p, self.pos as int, escaped, state as int).0 == base
                    + bracket_body(p, start, false, 0).0,
                bracket_body(p, self.pos as int, escaped, state as int).1 == bracket_body(
                    p,
                    start,
                    false,
                    0,
                ).1,
            ensures
                self.pattern@ == p,
                self.are_braces_paired == old(self).are_braces_paired,
                self.brace_level == old(self).brace_level,
                self.num_ranges@ == old(self).num_ranges@,
                self.regex@ == base + bracket_body(p, start, false, 0).0,
                self.pos == bracket_body(p, start, false, 0).1,
            decreases p.len() - self.pos,
        {
            let ghost prev = self.regex@;
            let ghost prev_state = state as int;
            let after_member: u8 = if state == 2 {
                0
            } else {
                1
            };
            match self.bump() {
                None => {
                    assert(self.regex@ + seq![] =~= self.regex@);
                    break ;
                },
                Some(ch) => {
                    if escaped {
                        escaped = false;
                        state = after_member;
                        self.parse_literal(ch);
                        assert(self.regex@ + bracket_body(p, self.pos as int, false, state as int).0
                            =~= prev + (literal(ch) + bracket_body(
                            p,
                            self.pos as int,
                            false,
                            member_state(prev_state),
                        ).0));
                    } else if ch == '\\' {
                        escaped = true;
                    } else if ch == ']' {
                        self.regex.push(']');
                        assert(self.regex@ =~= prev + seq![']']);
                        break ;
                    } else {
                        let next_is_member = match self.peek() {
                            Some(c) => c != ']',
                            None => false,
                        };
                        if ch == '-' && state == 1 && next_is_member {
                            state = 2;
                            self.regex.push('-');
                            assert(self.regex@ + bracket_body(p, self.pos as int, false, 2).0 =~= prev
                                + (seq!['-'] + bracket_body(p, self.pos as int, false, 2).0));
                        } else {
                            state = after_member;
                            self.parse_literal(ch);
                            assert(self.regex@ + bracket_body(
                                p,
                                self.pos as int,
                                false,
                                state as int,
                            ).0 =~= prev + (literal(ch) + bracket_body(
                                p,
                                self.pos as int,
                                false,
                                member_state(prev_state),
                            ).0));
                        }
                    }
                },
            }
        }
        proof {
            if negated {
                assert(self.regex@ =~= old(self).regex@ + (seq!['[', '^'] + bracket_body(
                    p,
                    start,
                    false,
                    0,
                ).0));
            } else {
                assert(self.regex@ =~= old(self).regex@ + (seq!['['] + bracket_body(
                    p,
                    start,
                    false,
                    0,
                ).0));
            }
        }
    }

    /// `{`: a numeric range `{a..b}`, a single item taken literally, or the
    /// start of a group of alternatives. Literal where braces are unpaired.
    fn parse_open_brace(&mut self)
        requires
            old(self).bumped(),
            old(self).pattern@[old(self).pos - 1] == '{',
        ensures
            old(self).steps(final(self)),
    {
        let ghost p = self.pattern@;
        if !self.are_braces_paired {
            self.regex.push('\\');
            self.regex.push('{');
            assert(self.regex@ =~= old(self).regex@ + seq!['\\', '{']);
            return ;
        }
        let curr = self.pos - 1;
        match is_single_item_braces(self.pattern.as_slice(), curr) {
            Some(off) => {
                proof {
                    lemma_close_from_bounds(p, curr as int, false);
                }
                let n = self.pattern.len();
                assert(curr + off < n);
                let end = curr + off + 1;
                let ghost s = p.subrange(curr as int, end as int);
                let range = parse_range(&self.pattern.as_slice()[curr..end]);
                assert(self.pattern@.subrange(curr as int, end as int) == s);
                match range {
                    Some(r) => {
                        self.regex.push('(');
                        self.regex.push('[');
                        self.regex.push('\\');
                        self.regex.push('+');
                        self.regex.push('\\');
                        self.regex.push('-');
                        self.regex.push(']');
                        self.regex.push('?');
                        self.regex.push('\\');
                        self.regex.push('d');
                        self.regex.push('+');
                        self.regex.push(')');
                        self.num_ranges.push(r);
                        assert(self.regex@ =~= old(self).regex@ + range_regex());
                        assert(self.num_ranges@ =~= old(self).num_ranges@ + seq![r]);
                    },
                    None => {
                        let mut i = curr;
                        assert(s.skip(0) =~= s);
                        while i < end
                            invariant
                                curr <= i <= end,
                                end <= p.len(),
                                s == p.subrange(curr as int, end as int),
                                self.pattern@ == p,
                                self.pos == old(self).pos,
                                self.are_braces_paired == old(self).are_braces_paired,
                                self.brace_level == old(self).brace_level,
                                self.num_ranges@ == old(self).num_ranges@,
                                self.regex@ + escape_all(s.skip(i - curr)) == old(self).regex@
                                    + escape_all(s),
                            decreases end - i,
                        {
                            let ch = self.pattern[i];
                            let ghost prev = self.regex@;
                            assert(s.skip(i - curr).drop_first() =~= s.skip(i + 1 - curr));
                            self.parse_literal(ch);
                            assert(prev + escape_all(s.skip(i - curr)) =~= self.regex@
                                + escape_all(s.skip(i + 1 - curr)));
                            i = i + 1;
                        }
                        assert(s.skip(end - curr) =~= Seq::<char>::empty());
                        assert(self.regex@ =~= old(self).regex@ + escape_all(s));
                    },
                }
                let ghost emitted = self.regex@;
                let ghost ranges = self.num_ranges@;
                while self.pos < end
                    invariant
                        self.pos <= end,
                        end <= p.len(),
                        self.pattern@ == p,
                        self.regex@ == emitted,
                        self.num_ranges@ == ranges,
                        self.are_braces_paired == old(self).are_braces_paired,
                        self.brace_level == old(self).brace_level,
                    decreases end - self.pos,
                {
                    self.bump();
                }
            },
            None => {
                self.regex.push('(');
                self.regex.push('?');
                self.regex.push(':');
                assert(self.regex@ =~= old(self).regex@ + seq!['(', '?', ':']);
                self.increase_brace_level();
            },
        }
    }

    /// `}`: closes a group. Literal where braces are unpaired.
    fn parse_close_brace(&mut self)
        requires
            old(self).bumped(),
            old(self).pattern@[old(self).pos - 1] == '}',
        ensures
            old(self).steps(final(self)),
    {
        if !self.are_braces_paired {
            self.regex.push('\\');
            self.regex.push('}');
            assert(self.regex@ =~= old(self).regex@ + seq!['\\', '}']);
            return ;
        }
        self.regex.push(')');
        assert(self.regex@ =~= old(self).regex@ + seq![')']);
        self.decrease_brace_level();
    }

    /// `,`: separates alternatives inside a group, literal outside.
    fn parse_comma(&mut self)
        requires
            old(self).bumped(),
            old(self).pattern@[old(self).pos - 1] == ',',
        ensures
            old(self).steps(final(self)),
    {
        if self.brace_level > 0 {
            self.regex.push('|');
            assert(self.regex@ =~= old(self).regex@ + seq!['|']);
        } else {
            self.regex.push('\\');
            self.regex.push(',');
            assert(self.regex@ =~= old(self).regex@ + seq!['\\', ',']);
        }
    }

    /// Enters a group.
    fn increase_brace_level(&mut self)
        ensures
            final(self).brace_level == deeper(old(self).brace_level),
            final(self).pattern@ == old(self).pattern@,
            final(self).pos == old(self).pos,
            final(self).are_braces_paired == old(self).are_braces_paired,
            final(self).regex@ == old(self).regex@,
            final(self).num_ranges@ == old(self).num_ranges@,
    {
        if self.brace_level < u32::MAX {
            self.brace_level = self.brace_level + 1;
        }
    }

    /// Leaves a group, if any is open.
    fn decrease_brace_level(&mut self)
        ensures
            final(self).brace_level == shallower(old(self).brace_level),
            final(self).pattern@ == old(self).pattern@,
            final(self).pos == old(self).pos,
            final(self).are_braces_paired == old(self).are_braces_paired,
            final(self).regex@ == old(self).regex@,
            final(self).num_ranges@ == old(self).num_ranges@,
    {
        if self.brace_level > 0 {
            self.brace_level = self.brace_level - 1;
        }
    }
}


// ----------------------------------------------------------------------------
// Globs
// ----------------------------------------------------------------------------

/// Why a glob could not be built.
#[derive(Debug, PartialEq, Eq, Clone, Copy, Structural)]
pub enum GlobError {
    /// Couldn't parse the input as a glob expression.
    Parse,
    /// A range was found that does not hold `num1 < num2` in `num1..num2`.
    InvalidRange,
    /// The directory ends with a path separator and is not the root `/`.
    NonDirPath,
    /// The regex engine refused the regex of the pattern.
    RegexCompilation,
}

/// What comes between the directory and the regex of the pattern: a pattern
/// without `/` matches in any subdirectory, one with a `/` only relative to
/// the directory.
pub open spec fn separator_part(p: Seq<char>) -> Seq<char> {
    if !p.contains('/') {
        seq!['.', '*', '/']
    } else if !(p.len() > 0 && p[0] == '/') {
        seq!['/']
    } else {
        seq![]
    }
}

/// The root directory `/`.
pub open spec fn is_root_dir(dir: Seq<char>) -> bool {
    dir == seq!['/']
}

/// The directory as the start of a path: nothing for the root directory,
/// since the separator after it comes from the pattern's part.
pub open spec fn dir_prefix(dir: Seq<char>) -> Seq<char> {
    if is_root_dir(dir) {
        seq![]
    } else {
        dir
    }
}

/// The regex of the glob `p` in the EditorConfig file of directory `dir`.
pub open spec fn glob_regex(dir: Seq<char>, p: Seq<char>) -> Seq<char> {
    seq!['^'] + escape_all(dir_prefix(dir)) + separator_part(p) + pattern_regex(p).0 + seq!['$']
}

/// Whether every range `a..b` has `a < b`.
pub open spec fn ranges_ascending(r: Seq<(i32, i32)>) -> bool {
    forall|i: int| 0 <= i < r.len() ==> (#[trigger] r[i]).0 < r[i].1
}

/// The glob `p` of directory `dir`: its regex and numeric ranges, or why
/// there is none.
pub open spec fn glob_outcome(dir: Seq<char>, p: Seq<char>) -> Result<
    (Seq<char>, Seq<(i32, i32)>),
    GlobError,
> {
    if dir.len() > 0 && dir.last() == '/' && !is_root_dir(dir) {
        Err(GlobError::NonDirPath)
    } else if !ranges_ascending(pattern_regex(p).1) {
        Err(GlobError::InvalidRange)
    } else if !regex_compiles(glob_regex(dir, p)) {
        Err(GlobError::RegexCompilation)
    } else {
        Ok((glob_regex(dir, p), pattern_regex(p).1))
    }
}

/// Whether the captured text is a number within the range.
pub open spec fn in_range(s: Seq<char>, r: (i32, i32)) -> bool {
    match parse_i32_spec(s) {
        Some(n) => r.0 <= n <= r.1,
        None => false,
    }
}

/// Pairs the capture groups with the numeric ranges, in order, until either
/// runs out or a number falls outside its range. Each group is looked at
/// before its range is, and a group that took no part in the match gives
/// `None`: there the check cannot be made.
pub open spec fn groups_outcome(groups: Seq<Option<Seq<char>>>, ranges: Seq<(i32, i32)>) -> Option<
    bool,
>
    decreases groups.len(),
{
    if groups.len() == 0 {
        Some(true)
    } else {
        match groups[0] {
            None => None,
            Some(g) => if ranges.len() == 0 {
                Some(true)
            } else if !in_range(g, ranges[0]) {
                Some(false)
            } else {
                groups_outcome(groups.drop_first(), ranges.drop_first())
            },
        }
    }
}

/// Whether `path` matches the glob of regex `source` and ranges `ranges`:
/// the regex matches and each captured number is within its range. `None`
/// where a group that is looked at took no part in the match.
pub open spec fn match_outcome(source: Seq<char>, ranges: Seq<(i32, i32)>, path: Seq<char>) -> Option<
    bool,
> {
    match regex_captures(source, path) {
        None => Some(false),
        Some(groups) => if groups.len() == 0 {
            Some(true)
        } else {
            groups_outcome(groups.drop_first(), ranges)
        },
    }
}

/// Whether the captured text `mat` is a number within `rng`.
pub fn match_in_range(mat: &str, rng: (i32, i32)) -> (r: bool)
    ensures
        r == in_range(mat@, rng),
{
    match parse_i32(chars_of(mat).as_slice()) {
        Some(n) => rng.0 <= n && n <= rng.1,
        None => false,
    }
}

/// A compiled section glob.
pub struct Glob {
    re: CompiledRegex,
    num_ranges: Vec<(i32, i32)>,
}

impl Glob {
    /// The regex and the numeric ranges of the glob.
    pub closed spec fn view(&self) -> (Seq<char>, Seq<(i32, i32)>) {
        (self.re.source(), self.num_ranges@)
    }

    /// Builds the glob `pattern` of the EditorConfig file in `ec_dir`, a
    /// directory with `/` as separator that does not end with one, or the
    /// root directory `/`.
    pub fn new(ec_dir: &str, pattern: &str) -> (r: Result<Glob, GlobError>)
        ensures
            match r {
                Ok(g) => glob_outcome(ec_dir@, pattern@) == Ok::<_, GlobError>(g.view()),
                Err(e) => glob_outcome(ec_dir@, pattern@) == Err::<(Seq<char>, Seq<(i32, i32)>), _>(e),
            },
    {
        let dir = chars_of(ec_dir);
        let dn = dir.len();
        let root = dn == 1 && dir[0] == '/';
        if root {
            assert(dir@ =~= seq!['/']);
        } else {
            assert(!is_root_dir(dir@));
        }
        if !root && dn > 0 && dir[dn - 1] == '/' {
            return Err(GlobError::NonDirPath);
        }
        let p = chars_of(pattern);
        let parser = Parser::new(p.as_slice());
        let (re, num_ranges) = parser.parse();
        assert(num_ranges@ == pattern_regex(pattern@).1);
        let mut i: usize = 0;
        while i < num_ranges.len()
            invariant
                i <= num_ranges@.len(),
                num_ranges@ == pattern_regex(pattern@).1,
                !(ec_dir@.len() > 0 && ec_dir@.last() == '/' && !is_root_dir(ec_dir@)),
                forall|j: int| 0 <= j < i ==> (#[trigger] num_ranges@[j]).0 < num_ranges@[j].1,
            decreases num_ranges@.len() - i,
        {
            let (a, b) = num_ranges[i];
            if !(a < b) {
                assert(!((num_ranges@[i as int]).0 < num_ranges@[i as int].1));
                assert(!ranges_ascending(pattern_regex(pattern@).1));
                return Err(GlobError::InvalidRange);
            }
            i = i + 1;
        }
        let mut has_separator = false;
        let mut k: usize = 0;
        while k < p.len()
            invariant
                k <= p@.len(),
                has_separator <==> (exists|j: int| 0 <= j < k && p@[j] == '/'),
            decreases p@.len() - k,
        {
            if p[k] == '/' {
                has_separator = true;
            }
            k = k + 1;
        }
        assert(has_separator <==> p@.contains('/'));
        let starts_with_separator = p.len() > 0 && p[0] == '/';
        let mut regex: Vec<char> = Vec::new();
        regex.push('^');
        let escaped = if root {
            assert(escape_all(dir_prefix(ec_dir@)) =~= Seq::<char>::empty());
            Vec::new()
        } else {
            chars_of(escape(ec_dir).as_str())
        };
        assert(escaped@ == escape_all(dir_prefix(ec_dir@)));
        let mut regex = vstd::slice::slice_to_vec(regex.as_slice());
        let mut e: usize = 0;
        while e < escaped.len()
            invariant
                e <= escaped@.len(),
                regex@ == seq!['^'] + escaped@.take(e as int),
            decreases escaped@.len() - e,
        {
            regex.push(escaped[e]);
            assert(escaped@.take(e + 1) =~= escaped@.take(e as int).push(escaped@[e as int]));
            e = e + 1;
        }
        assert(escaped@.take(escaped@.len() as int) =~= escaped@);
        if !has_separator {
            regex.push('.');
            regex.push('*');
            regex.push('/');
        } else if !starts_with_separator {
            regex.push('/');
        }
        let ghost before_body = regex@;
        assert(before_body =~= seq!['^'] + escape_all(dir_prefix(ec_dir@)) + separator_part(p@));
        let mut t: usize = 0;
        while t < re.len()
            invariant
                t <= re@.len(),
                regex@ == before_body + re@.take(t as int),
            decreases re@.len() - t,
        {
            regex.push(re[t]);
            assert(re@.take(t + 1) =~= re@.take(t as int).push(re@[t as int]));
            t = t + 1;
        }
        assert(re@.take(re@.len() as int) =~= re@);
        regex.push('$');
        assert(regex@ =~= glob_regex(ec_dir@, pattern@));
        let source = string_from_chars(regex.as_slice());
        match CompiledRegex::compile(source.as_str()) {
            Some(re) => Ok(Glob { re, num_ranges }),
            None => Err(GlobError::RegexCompilation),
        }
    }

    /// Whether `path` matches the glob, or `None` where a capture group
    /// that is looked at took no part in the match.
    pub fn is_match(&self, path: &str) -> (r: Option<bool>)
        ensures
            r == match_outcome(self.view().0, self.view().1, path@),
    {
        match self.re.captures(path) {
            None => Some(false),
            Some(groups) => groups_in_ranges(&groups, &self.num_ranges),
        }
    }
}

/// Checks the capture groups of a match (group 0 first) against the numeric
/// ranges: the groups after group 0 are paired with the ranges in order,
/// until either runs out or a number falls outside its range. `None` where
/// a group that is looked at took no part in the match.
pub fn groups_in_ranges(groups: &Vec<Option<String>>, ranges: &Vec<(i32, i32)>) -> (r: Option<
    bool,
>)
    ensures
        r == (if groups@.len() == 0 {
            Some(true)
        } else {
            groups_outcome(groups.deep_view().drop_first(), ranges@)
        }),
{
    let n = groups.len();
    let ghost gs = groups.deep_view();
    if n == 0 {
        return Some(true);
    }
    let mut k: usize = 1;
    assert(gs.drop_first() =~= gs.skip(1));
    assert(ranges@.skip(0) =~= ranges@);
    while k < n
        invariant
            1 <= k <= n,
            n == gs.len(),
            gs == groups.deep_view(),
            gs.len() == groups@.len(),
            k - 1 <= ranges@.len(),
            groups_outcome(gs.drop_first(), ranges@) == groups_outcome(
                gs.skip(k as int),
                ranges@.skip(k - 1),
            ),
        decreases n - k,
    {
        assert(gs.skip(k as int).drop_first() =~= gs.skip(k + 1));
        assert(gs.skip(k as int)[0] == groups@[k as int].deep_view());
        match &groups[k] {
            None => {
                return None;
            },
            Some(g) => {
                if k - 1 >= ranges.len() {
                    return Some(true);
                }
                assert(ranges@.skip(k - 1).drop_first() =~= ranges@.skip(k as int));
                if !match_in_range(g.as_str(), ranges[k - 1]) {
                    return Some(false);
                }
            },
        }
        k = k + 1;
    }
    Some(true)
}

} // verus!
