//! The regular-expression engine: escaping, compiling and matching, done by
//! the `regex` and `regex-syntax` crates.
use vstd::prelude::*;

verus! {

#[verifier::external_type_specification]
#[verifier::external_body]
pub struct ExRegex(regex::Regex);

/// Characters with a special meaning in a regular expression.
pub open spec fn is_meta(c: char) -> bool {
    ||| c == '\\'
    ||| c == '.'
    ||| c == '+'
    ||| c == '*'
    ||| c == '?'
    ||| c == '('
    ||| c == ')'
    ||| c == '|'
    ||| c == '['
    ||| c == ']'
    ||| c == '{'
    ||| c == '}'
    ||| c == '^'
    ||| c == '$'
    ||| c == '#'
    ||| c == '&'
    ||| c == '-'
    ||| c == '~'
}

/// A character as a regex literal: a meta character gets a backslash before it.
pub open spec fn literal(c: char) -> Seq<char> {
    if is_meta(c) {
        seq!['\\', c]
    } else {
        seq![c]
    }
}

/// Every character of `s` as a regex literal, in order.
pub open spec fn escape_all(s: Seq<char>) -> Seq<char>
    decreases s.len(),
{
    if s.len() == 0 {
        seq![]
    } else {
        literal(s[0]) + escape_all(s.drop_first())
    }
}

/// Whether `regex::Regex::new` accepts `pattern`.
pub uninterp spec fn regex_compiles(pattern: Seq<char>) -> bool;

/// The capture groups that a regex compiled from `pattern` reports for
/// `haystack` (`regex::Regex::captures`), group 0 first, or `None` where it
/// does not match.
pub uninterp spec fn regex_captures(pattern: Seq<char>, haystack: Seq<char>) -> Option<
    Seq<Option<Seq<char>>>,
>;

/// `regex_syntax::is_meta_character`: whether `c` must be escaped to match itself.
#[verifier::external_body]
pub fn is_meta_character(c: char) -> (r: bool)
    ensures
        r == is_meta(c),
{
    regex_syntax::is_meta_character(c)
}

/// `regex::escape`: puts a backslash before each meta character of `text`.
#[verifier::external_body]
pub fn escape(text: &str) -> (r: String)
    ensures
        r@ == escape_all(text@),
{
    regex::escape(text)
}

/// A regex together with the pattern it was compiled from.
pub struct CompiledRegex {
    re: regex::Regex,
    source: String,
}

impl CompiledRegex {
    /// The pattern this regex was compiled from.
    pub closed spec fn source(&self) -> Seq<char> {
        self.source@
    }

    /// `regex::Regex::new`: compiles `pattern`, which succeeds exactly where
    /// `regex_compiles` holds. The pattern is kept beside the regex, so that
    /// what a match reports is tied to the pattern. The error the crate
    /// reports is dropped: its type shares its name with this crate's own
    /// `Error`, which the declaration of an outside type may not.
    #[verifier::external_body]
    pub fn compile(pattern: &str) -> (r: Option<CompiledRegex>)
        ensures
            r is Some <==> regex_compiles(pattern@),
            r matches Some(c) ==> c.source() == pattern@,
    {
        match regex::Regex::new(pattern) {
            Ok(re) => Some(CompiledRegex { re, source: pattern.to_string() }),
            Err(_) => None,
        }
    }

    /// `regex::Regex::captures`, each group turned into an owned string: the
    /// result is `regex_captures` of the pattern and the haystack.
    #[verifier::external_body]
    pub fn captures(&self, haystack: &str) -> (r: Option<Vec<Option<String>>>)
        ensures
            r.deep_view() == regex_captures(self.source(), haystack@),
    {
        self.re.captures(haystack).map(
            |caps| caps.iter().map(|m| m.map(|m| m.as_str().to_string())).collect(),
        )
    }
}

} // verus!
