//! What one line of an EditorConfig file does to the properties.
use vstd::prelude::*;
use crate::glob::{glob_outcome, match_outcome, Glob};
use crate::properties::Properties;
use crate::text::{
    chars_eq_ignore_ascii_case, chars_of, eq_ignore_ascii_case, lowered, string_from_chars,
    to_lowercase, trim, trim_chars,
};

verus! {

/// Why reading the EditorConfig files stopped.
#[derive(Debug, PartialEq, Eq, Clone, Copy, Structural)]
pub enum Stop {
    /// A section header holds a glob that cannot be built.
    Parse,
    /// Reading the file with this index (in the order they are given) failed.
    Io(usize),
    /// A section glob cannot tell whether the file matches: a capture group
    /// that its numeric ranges are checked against took no part in the match.
    Unmatchable,
}

/// How a `key = value` pair in a matching section changes the properties.
#[derive(Debug, PartialEq, Eq, Clone, Copy, Structural)]
pub enum PairRule {
    /// Keys are lower-cased; values only for the supported properties.
    LowercaseSupported,
    /// Keys and values are lower-cased; where `allow_unset` holds, a value
    /// of `unset` (in any ASCII case) removes the key instead.
    LowercaseAll { allow_unset: bool },
}

/// The properties whose values are lower-cased under
/// `PairRule::LowercaseSupported`.
pub open spec fn is_supported_key(k: Seq<char>) -> bool {
    ||| k == "end_of_line"@
    ||| k == "indent_style"@
    ||| k == "indent_size"@
    ||| k == "tab_width"@
    ||| k == "insert_final_newline"@
    ||| k == "trim_trailing_whitespace"@
    ||| k == "charset"@
}

/// A comment line starts with `#` or `;`.
pub open spec fn is_comment(l: Seq<char>) -> bool {
    l.len() > 0 && (l[0] == '#' || l[0] == ';')
}

/// The glob of a section header `[glob]`.
pub open spec fn section_of(l: Seq<char>) -> Option<Seq<char>> {
    if l.len() >= 2 && l[0] == '[' && l.last() == ']' {
        Some(l.subrange(1, l.len() - 1))
    } else {
        None
    }
}

/// The first index `i >= k` of `c` in `s`.
pub open spec fn index_of_from(s: Seq<char>, c: char, k: int) -> Option<int>
    decreases s.len() - k,
{
    if k < 0 || k >= s.len() {
        None
    } else if s[k] == c {
        Some(k)
    } else {
        index_of_from(s, c, k + 1)
    }
}

/// The `key = value` of a line: split at the first `=`, both sides trimmed,
/// the key not empty.
pub open spec fn pair_of(l: Seq<char>) -> Option<(Seq<char>, Seq<char>)> {
    match index_of_from(l, '=', 0) {
        Some(i) => {
            let key = trim(l.take(i));
            let value = trim(l.skip(i + 1));
            if key.len() > 0 {
                Some((key, value))
            } else {
                None
            }
        },
        None => None,
    }
}

/// The properties after a pair of a matching section.
pub open spec fn apply_pair(
    m: Map<Seq<char>, Seq<char>>,
    key: Seq<char>,
    value: Seq<char>,
    rule: PairRule,
) -> Map<Seq<char>, Seq<char>> {
    let k = lowered(key);
    match rule {
        PairRule::LowercaseSupported => m.insert(
            k,
            if is_supported_key(k) {
                lowered(value)
            } else {
                value
            },
        ),
        PairRule::LowercaseAll { allow_unset } => if allow_unset && eq_ignore_ascii_case(
            value,
            "unset"@,
        ) {
            m.remove(k)
        } else {
            m.insert(k, lowered(value))
        },
    }
}

/// What one line does, given the properties so far and whether the file
/// matches the current section (`None` before the first section): the new
/// properties and section state, or why reading stops. `file_path` is the
/// file whose properties are sought and `dir` the directory of the
/// EditorConfig file.
pub open spec fn line_step(
    m: Map<Seq<char>, Seq<char>>,
    section: Option<bool>,
    raw: Seq<char>,
    file_path: Seq<char>,
    dir: Seq<char>,
    rule: PairRule,
) -> Result<(Map<Seq<char>, Seq<char>>, Option<bool>), Stop> {
    let l = trim(raw);
    if is_comment(l) {
        Ok((m, section))
    } else {
        match section_of(l) {
            Some(p) => match glob_outcome(dir, p) {
                Err(_) => Err(Stop::Parse),
                Ok(g) => match match_outcome(g.0, g.1, file_path) {
                    None => Err(Stop::Unmatchable),
                    Some(b) => Ok((m, Some(b))),
                },
            },
            None => match pair_of(l) {
                Some(kv) => if section == Some(true) {
                    Ok((apply_pair(m, kv.0, kv.1, rule), section))
                } else if section is None && eq_ignore_ascii_case(kv.0, "root"@)
                    && eq_ignore_ascii_case(kv.1, "true"@) {
                    Ok((Map::empty(), section))
                } else {
                    Ok((m, section))
                },
                None => Ok((m, section)),
            },
        }
    }
}

/// Splits a line at its first `=` into a trimmed key and value; `None`
/// where there is no `=` or the key is empty.
pub fn parse_pair(line: &[char]) -> (r: Option<(Vec<char>, Vec<char>)>)
    ensures
        match r {
            Some(kv) => pair_of(line@) == Some((kv.0@, kv.1@)),
            None => pair_of(line@) is None,
        },
{
    let n = line.len();
    let mut i: usize = 0;
    while i < n
        invariant
            n == line@.len(),
            i <= n,
            index_of_from(line@, '=', 0) == index_of_from(line@, '=', i as int),
        decreases n - i,
    {
        if line[i] == '=' {
            let key = trim_chars(&line[0..i]);
            let value = trim_chars(&line[i + 1..n]);
            assert(line@.subrange(0, i as int) =~= line@.take(i as int));
            assert(line@.subrange(i + 1, n as int) =~= line@.skip(i + 1));
            if key.len() == 0 {
                return None;
            }
            return Some((key, value));
        }
        i = i + 1;
    }
    None
}

/// Whether `key` (already lower-cased) is one of the supported properties.
fn is_supported(key: &String) -> (r: bool)
    ensures
        r == is_supported_key(key@),
{
    *key == "end_of_line".to_owned() || *key == "indent_style".to_owned() || *key
        == "indent_size".to_owned() || *key == "tab_width".to_owned() || *key
        == "insert_final_newline".to_owned() || *key
        == "trim_trailing_whitespace".to_owned() || *key == "charset".to_owned()
}

/// Applies a pair of a matching section to the properties.
pub fn insert_pair(properties: &mut Properties, key: &[char], value: &[char], rule: PairRule)
    ensures
        final(properties)@ == apply_pair(old(properties)@, key@, value@, rule),
{
    let key = to_lowercase(string_from_chars(key).as_str());
    match rule {
        PairRule::LowercaseSupported => {
            let value = if is_supported(&key) {
                to_lowercase(string_from_chars(value).as_str())
            } else {
                string_from_chars(value)
            };
            properties.insert(key, value);
        },
        PairRule::LowercaseAll { allow_unset } => {
            if allow_unset && chars_eq_ignore_ascii_case(value, chars_of("unset").as_slice()) {
                properties.remove(&key);
            } else {
                properties.insert(key, to_lowercase(string_from_chars(value).as_str()));
            }
        },
    }
}

/// Reads a section header: `Ok(None)` where the line is not one, else
/// whether the file at `file_path` matches its glob.
pub fn parse_section(file_path: &str, ec_dir: &str, line: &[char]) -> (r: Result<
    Option<bool>,
    Stop,
>)
    ensures
        match section_of(line@) {
            None => r == Ok::<Option<bool>, Stop>(None),
            Some(p) => match glob_outcome(ec_dir@, p) {
                Err(_) => r == Err::<Option<bool>, Stop>(Stop::Parse),
                Ok(g) => match match_outcome(g.0, g.1, file_path@) {
                    None => r == Err::<Option<bool>, Stop>(Stop::Unmatchable),
                    Some(b) => r == Ok::<Option<bool>, Stop>(Some(b)),
                },
            },
        },
{
    let n = line.len();
    if !(n >= 2 && line[0] == '[' && line[n - 1] == ']') {
        return Ok(None);
    }
    let pattern = string_from_chars(&line[1..n - 1]);
    assert(pattern@ =~= line@.subrange(1, n - 1));
    match Glob::new(ec_dir, pattern.as_str()) {
        Err(_) => Err(Stop::Parse),
        Ok(glob) => match glob.is_match(file_path) {
            None => Err(Stop::Unmatchable),
            Some(b) => Ok(Some(b)),
        },
    }
}

/// Applies one raw line (as read, with its line break) to the properties
/// and the section state.
pub fn process_line(
    properties: &mut Properties,
    section: &mut Option<bool>,
    raw: &str,
    file_path: &str,
    ec_dir: &str,
    rule: PairRule,
) -> (r: Result<(), Stop>)
    ensures
        match line_step(old(properties)@, *old(section), raw@, file_path@, ec_dir@, rule) {
            Ok(st) => r is Ok && final(properties)@ == st.0 && *final(section) == st.1,
            Err(e) => r == Err::<(), Stop>(e) && final(properties)@ == old(properties)@
                && *final(section) == *old(section),
        },
{
    let chars = chars_of(raw);
    let l = trim_chars(chars.as_slice());
    if l.len() > 0 && (l[0] == '#' || l[0] == ';') {
        return Ok(());
    }
    match parse_section(file_path, ec_dir, l.as_slice()) {
        Err(e) => {
            return Err(e);
        },
        Ok(Some(b)) => {
            *section = Some(b);
            return Ok(());
        },
        Ok(None) => {},
    }
    match parse_pair(l.as_slice()) {
        Some((key, value)) => {
            if *section == Some(true) {
                insert_pair(properties, key.as_slice(), value.as_slice(), rule);
            } else if section.is_none() && chars_eq_ignore_ascii_case(
                key.as_slice(),
                chars_of("root").as_slice(),
            ) && chars_eq_ignore_ascii_case(value.as_slice(), chars_of("true").as_slice()) {
                properties.clear();
            }
        },
        None => {},
    }
    Ok(())
}

} // verus!
