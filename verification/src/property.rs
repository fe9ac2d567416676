//! Typed properties: a property is looked up by its keys and parsed from
//! its value.
use vstd::prelude::*;
use crate::properties::Properties;
use crate::text::{chars_eq_ignore_ascii_case, chars_of, eq_ignore_ascii_case};

verus! {

/// A property that can be read from `Properties`.
pub trait Property {
    type Error;

    /// The keys the property may be set under, the preferred first.
    const KEYS: &'static [&'static str];

    /// Parses the property from a value.
    fn parse(value: &str) -> Result<Self, Self::Error> where Self: Sized;
}

/// The keys as character sequences.
pub open spec fn keys_view(keys: Seq<&str>) -> Seq<Seq<char>> {
    keys.map_values(|k: &str| k@)
}

/// The value of the first of `keys` that has one.
pub open spec fn first_key_value(m: Map<Seq<char>, Seq<char>>, keys: Seq<Seq<char>>) -> Option<
    Seq<char>,
>
    decreases keys.len(),
{
    if keys.len() == 0 {
        None
    } else if m.contains_key(keys[0]) {
        Some(m[keys[0]])
    } else {
        first_key_value(m, keys.drop_first())
    }
}

impl Properties {
    /// The value of the first of `keys` that has one.
    pub fn value_for_keys(&self, keys: &[&str]) -> (r: Option<&String>)
        ensures
            match r {
                Some(v) => first_key_value(self@, keys_view(keys@)) == Some(v@),
                None => first_key_value(self@, keys_view(keys@)) is None,
            },
    {
        let ghost ks = keys_view(keys@);
        let mut i: usize = 0;
        assert(ks.skip(0) =~= ks);
        while i < keys.len()
            invariant
                i <= keys@.len(),
                ks == keys_view(keys@),
                first_key_value(self@, ks) == first_key_value(self@, ks.skip(i as int)),
            decreases keys@.len() - i,
        {
            let key = keys[i].to_owned();
            assert(ks.skip(i as int).drop_first() =~= ks.skip(i + 1));
            assert(ks.skip(i as int)[0] == keys@[i as int]@);
            match self.get_value(&key) {
                Some(v) => {
                    return Some(v);
                },
                None => {},
            }
            i = i + 1;
        }
        None
    }

    /// The property `P`, read from the value of the first of its keys that
    /// has one, or `None` where none has.
    pub fn get<P: Property>(&self) -> (r: Option<Result<P, P::Error>>)
        ensures
            r is Some <==> first_key_value(self@, keys_view(P::KEYS@)) is Some,
            r matches Some(x) ==> exists|v: &str|
                v@ == first_key_value(self@, keys_view(P::KEYS@)).unwrap() && call_ensures(
                    P::parse,
                    (v,),
                    x,
                ),
    {
        match self.value_for_keys(P::KEYS) {
            Some(value) => Some(P::parse(value.as_str())),
            None => None,
        }
    }
}

/// Whether `s` equals `word`, ignoring ASCII case.
fn is_word(s: &[char], word: &str) -> (r: bool)
    ensures
        r == eq_ignore_ascii_case(s@, word@),
{
    chars_eq_ignore_ascii_case(s, chars_of(word).as_slice())
}

/// `indent_style`.
#[derive(Debug, Clone, Copy, PartialEq, Eq, Hash, Structural)]
pub enum IndentStyle {
    Tab,
    Space,
}

impl IndentStyle {
    /// `tab` or `space`, in any ASCII case.
    pub fn parse(s: &str) -> (r: Option<Self>)
        ensures
            r == (if eq_ignore_ascii_case(s@, "tab"@) {
                Some(IndentStyle::Tab)
            } else if eq_ignore_ascii_case(s@, "space"@) {
                Some(IndentStyle::Space)
            } else {
                None
            }),
    {
        let c = chars_of(s);
        if is_word(c.as_slice(), "tab") {
            Some(IndentStyle::Tab)
        } else if is_word(c.as_slice(), "space") {
            Some(IndentStyle::Space)
        } else {
            None
        }
    }
}

/// `end_of_line`.
#[derive(Debug, Clone, Copy, PartialEq, Eq, Hash, Structural)]
pub enum EndOfLine {
    Lf,
    Cr,
    Crlf,
}

impl EndOfLine {
    /// `lf`, `cr` or `crlf`, in any ASCII case.
    pub fn parse(s: &str) -> (r: Option<Self>)
        ensures
            r == (if eq_ignore_ascii_case(s@, "lf"@) {
                Some(EndOfLine::Lf)
            } else if eq_ignore_ascii_case(s@, "cr"@) {
                Some(EndOfLine::Cr)
            } else if eq_ignore_ascii_case(s@, "crlf"@) {
                Some(EndOfLine::Crlf)
            } else {
                None
            }),
    {
        let c = chars_of(s);
        if is_word(c.as_slice(), "lf") {
            Some(EndOfLine::Lf)
        } else if is_word(c.as_slice(), "cr") {
            Some(EndOfLine::Cr)
        } else if is_word(c.as_slice(), "crlf") {
            Some(EndOfLine::Crlf)
        } else {
            None
        }
    }
}

/// `charset`.
#[derive(Debug, Clone, Copy, PartialEq, Eq, Hash, Structural)]
pub enum Charset {
    Latin1,
    Utf8,
    Utf8Bom,
    Utf16Be,
    Utf16Le,
}

impl Charset {
    /// `latin1`, `utf-8`, `utf-8-bom`, `utf-16be` or `utf-16le`, in any
    /// ASCII case.
    pub fn parse(s: &str) -> (r: Option<Self>)
        ensures
            r == (if eq_ignore_ascii_case(s@, "latin1"@) {
                Some(Charset::Latin1)
            } else if eq_ignore_ascii_case(s@, "utf-8"@) {
                Some(Charset::Utf8)
            } else if eq_ignore_ascii_case(s@, "utf-8-bom"@) {
                Some(Charset::Utf8Bom)
            } else if eq_ignore_ascii_case(s@, "utf-16be"@) {
                Some(Charset::Utf16Be)
            } else if eq_ignore_ascii_case(s@, "utf-16le"@) {
                Some(Charset::Utf16Le)
            } else {
                None
            }),
    {
        let c = chars_of(s);
        if is_word(c.as_slice(), "latin1") {
            Some(Charset::Latin1)
        } else if is_word(c.as_slice(), "utf-8") {
            Some(Charset::Utf8)
        } else if is_word(c.as_slice(), "utf-8-bom") {
            Some(Charset::Utf8Bom)
        } else if is_word(c.as_slice(), "utf-16be") {
            Some(Charset::Utf16Be)
        } else if is_word(c.as_slice(), "utf-16le") {
            Some(Charset::Utf16Le)
        } else {
            None
        }
    }
}

} // verus!
