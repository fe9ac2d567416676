use vstd::prelude::*;
use crate::glob::{all_digits, digits_value, lemma_digits_value_prefix};
use crate::rules::index_of_from;
use crate::text::chars_of;

verus! {

/// An EditorConfig specification version, `major.minor.patch`.
#[derive(Clone, Copy, Debug, PartialEq, Eq, Structural, Hash)]
pub struct Version {
    pub major: u64,
    pub minor: u64,
    pub patch: u64,
}

/// Highest EditorConfig version this core supports: 0.17.2.
pub open spec fn spec_max_version() -> Version {
    Version { major: 0, minor: 17, patch: 2 }
}

/// Version 0.9.0, from which `indent_style = tab` also sets `indent_size`.
pub open spec fn spec_v0_9_0() -> Version {
    Version { major: 0, minor: 9, patch: 0 }
}

/// Highest EditorConfig version this core supports.
pub fn max_version() -> (v: Version)
    ensures
        v == spec_max_version(),
{
    Version { major: 0, minor: 17, patch: 2 }
}

/// Version 0.9.0.
pub fn v0_9_0() -> (v: Version)
    ensures
        v == spec_v0_9_0(),
{
    Version { major: 0, minor: 9, patch: 0 }
}

impl Version {
    /// Lexicographic order on `(major, minor, patch)`.
    pub open spec fn spec_lt(self, other: Version) -> bool {
        ||| self.major < other.major
        ||| (self.major == other.major && self.minor < other.minor)
        ||| (self.major == other.major && self.minor == other.minor && self.patch < other.patch)
    }

    /// Whether `self` comes strictly before `other`.
    pub fn is_before(&self, other: &Version) -> (r: bool)
        ensures
            r == self.spec_lt(*other),
    {
        if self.major != other.major {
            self.major < other.major
        } else if self.minor != other.minor {
            self.minor < other.minor
        } else {
            self.patch < other.patch
        }
    }
}

/// `s` as a decimal `u64`: one or more ASCII digits with a value that fits.
pub open spec fn parse_u64_spec(s: Seq<char>) -> Option<u64> {
    if s.len() > 0 && all_digits(s) && digits_value(s) <= u64::MAX {
        Some(digits_value(s) as u64)
    } else {
        None
    }
}

/// `s` as a version `major.minor.patch`, three decimal numbers.
pub open spec fn parse_version_spec(s: Seq<char>) -> Option<Version> {
    match index_of_from(s, '.', 0) {
        None => None,
        Some(i) => {
            let rest = s.skip(i + 1);
            match index_of_from(rest, '.', 0) {
                None => None,
                Some(j) => match (
                    parse_u64_spec(s.take(i)),
                    parse_u64_spec(rest.take(j)),
                    parse_u64_spec(rest.skip(j + 1)),
                ) {
                    (Some(a), Some(b), Some(c)) => Some(Version { major: a, minor: b, patch: c }),
                    _ => None,
                },
            }
        },
    }
}

/// Parses a decimal `u64`.
pub fn parse_u64(s: &[char]) -> (r: Option<u64>)
    ensures
        r == parse_u64_spec(s@),
{
    let n = s.len();
    if n == 0 {
        return None;
    }
    let mut k: usize = 0;
    let mut acc: u128 = 0;
    while k < n
        invariant
            k <= n,
            n == s@.len(),
            acc <= u64::MAX,
            acc == digits_value(s@.take(k as int)),
            forall|i: int| 0 <= i < k ==> crate::glob::is_digit(#[trigger] s@[i]),
        decreases n - k,
    {
        let c = s[k];
        if !('0' <= c && c <= '9') {
            assert(!crate::glob::is_digit(s@[k as int]));
            assert(!all_digits(s@));
            return None;
        }
        let d: u128 = (c as u32 - '0' as u32) as u128;
        assert(s@.take(k + 1).drop_last() =~= s@.take(k as int));
        acc = acc * 10 + d;
        k = k + 1;
        assert(acc == digits_value(s@.take(k as int)));
        if acc > u64::MAX as u128 {
            proof {
                if all_digits(s@) {
                    lemma_digits_value_prefix(s@, k as int);
                }
            }
            return None;
        }
    }
    assert(s@.take(n as int) =~= s@);
    Some(acc as u64)
}

impl Version {
    /// Parses `major.minor.patch`.
    pub fn parse(s: &str) -> (r: Option<Version>)
        ensures
            r == parse_version_spec(s@),
    {
        let c = chars_of(s);
        let n = c.len();
        let mut i: usize = 0;
        while i < n && c[i] != '.'
            invariant
                i <= n,
                n == c@.len(),
                c@ == s@,
                index_of_from(c@, '.', 0) == index_of_from(c@, '.', i as int),
            decreases n - i,
        {
            i = i + 1;
        }
        if i == n {
            return None;
        }
        let rest = &c.as_slice()[i + 1..n];
        assert(rest@ =~= c@.skip(i + 1));
        let m = rest.len();
        let mut j: usize = 0;
        while j < m && rest[j] != '.'
            invariant
                j <= m,
                m == rest@.len(),
                index_of_from(rest@, '.', 0) == index_of_from(rest@, '.', j as int),
            decreases m - j,
        {
            j = j + 1;
        }
        if j == m {
            return None;
        }
        let a = parse_u64(&c.as_slice()[0..i]);
        let b = parse_u64(&rest[0..j]);
        let d = parse_u64(&rest[j + 1..m]);
        assert(c@.subrange(0, i as int) =~= c@.take(i as int));
        assert(rest@.subrange(0, j as int) =~= rest@.take(j as int));
        assert(rest@.subrange(j + 1, m as int) =~= rest@.skip(j + 1));
        match (a, b, d) {
            (Some(a), Some(b), Some(d)) => Some(Version { major: a, minor: b, patch: d }),
            _ => None,
        }
    }
}

} // verus!
