use editorconfig_core::version::{parse_u64, v0_9_0};
use editorconfig_core::{
    max_version, properties, Charset, EditorConfigFile, EndOfLine, IndentStyle, Options,
    Properties, Property, Version,
};

#[derive(Debug, PartialEq)]
struct Eol(EndOfLine);

impl Property for Eol {
    type Error = String;

    const KEYS: &'static [&'static str] = &["end_of_line", "eol"];

    fn parse(value: &str) -> Result<Self, Self::Error> {
        EndOfLine::parse(value).map(Eol).ok_or_else(|| value.to_string())
    }
}

fn file(dir: &str, lines: &[&str]) -> EditorConfigFile {
    EditorConfigFile {
        dir: dir.to_string(),
        lines: lines.iter().map(|l| format!("{l}\n")).collect(),
        read_error: None,
    }
}

#[test]
fn typed_property_from_first_key() {
    let p = Properties::new("/a/c", vec![file("/a", &["[*]", "eol = CRLF"])]).unwrap();
    assert_eq!(p.get::<Eol>(), Some(Ok(Eol(EndOfLine::Crlf))));
    let p = Properties::new("/a/c", vec![file("/a", &["[*]", "eol = cr", "end_of_line = lf"])])
        .unwrap();
    assert_eq!(p.get::<Eol>(), Some(Ok(Eol(EndOfLine::Lf))));
}

#[test]
fn typed_property_absent_or_invalid() {
    let p = Properties::new("/a/c", vec![file("/a", &["[*]", "x = y"])]).unwrap();
    assert_eq!(p.get::<Eol>(), None);
    let p = Properties::new("/a/c", vec![file("/a", &["[*]", "end_of_line = weird"])]).unwrap();
    assert_eq!(p.get::<Eol>(), Some(Err("weird".to_string())));
}

#[test]
fn value_lookup_by_keys() {
    let p = properties("/a/c", vec![file("/a", &["[*]", "b = 2", "c = 3"])]).unwrap();
    assert_eq!(p.value_for_keys(&["a", "c", "b"]).map(|v| v.as_str()), Some("3"));
    assert_eq!(p.value_for_keys(&["a"]), None);
}

#[test]
fn iter_lists_each_key_once() {
    let p = properties("/a/c", vec![file("/a", &["[*]", "b = 2", "B = 3", "c = 4"])]).unwrap();
    let mut v = p.iter();
    v.sort();
    assert_eq!(v, vec![("b", "3"), ("c", "4")]);
}

#[test]
fn map_operations() {
    let mut p = Properties::empty();
    p.insert("a".to_string(), "1".to_string());
    p.insert("b".to_string(), "2".to_string());
    p.insert("a".to_string(), "3".to_string());
    assert_eq!(p.get_value(&"a".to_string()).map(|v| v.as_str()), Some("3"));
    assert!(p.contains_key(&"b".to_string()));
    p.remove(&"b".to_string());
    assert!(!p.contains_key(&"b".to_string()));
    assert_eq!(p.iter(), vec![("a", "3")]);
    p.clear();
    assert!(p.iter().is_empty());
}

#[test]
fn enum_properties_ignore_ascii_case() {
    assert_eq!(IndentStyle::parse("TAB"), Some(IndentStyle::Tab));
    assert_eq!(IndentStyle::parse("Space"), Some(IndentStyle::Space));
    assert_eq!(IndentStyle::parse("tabs"), None);
    assert_eq!(EndOfLine::parse("Lf"), Some(EndOfLine::Lf));
    assert_eq!(EndOfLine::parse("cr"), Some(EndOfLine::Cr));
    assert_eq!(EndOfLine::parse("crLF"), Some(EndOfLine::Crlf));
    assert_eq!(Charset::parse("LATIN1"), Some(Charset::Latin1));
    assert_eq!(Charset::parse("utf-8"), Some(Charset::Utf8));
    assert_eq!(Charset::parse("UTF-8-BOM"), Some(Charset::Utf8Bom));
    assert_eq!(Charset::parse("utf-16be"), Some(Charset::Utf16Be));
    assert_eq!(Charset::parse("utf-16LE"), Some(Charset::Utf16Le));
    assert_eq!(Charset::parse("utf8"), None);
}

#[test]
fn versions() {
    assert_eq!(max_version(), Version { major: 0, minor: 17, patch: 2 });
    assert_eq!(Version::parse("0.9.0"), Some(v0_9_0()));
    assert_eq!(Version::parse("1.2"), None);
    assert_eq!(Version::parse("1.2.x"), None);
    assert_eq!(Version::parse("1.2.3.4"), None);
    assert_eq!(Version::parse("18446744073709551615.0.0").map(|v| v.major), Some(u64::MAX));
    assert_eq!(Version::parse("18446744073709551616.0.0"), None);
    assert!(Version { major: 0, minor: 8, patch: 9 }.is_before(&v0_9_0()));
    assert!(!v0_9_0().is_before(&v0_9_0()));
    assert!(!Version { major: 1, minor: 0, patch: 0 }.is_before(&v0_9_0()));
    assert_eq!(parse_u64(&['0', '7']), Some(7));
}

#[test]
fn default_options() {
    let o = Options::default();
    assert_eq!(o.file_name, ".editorconfig");
    assert!(o.allow_unset);
    assert_eq!(o.version, max_version());
}

#[test]
fn lowercasing_is_unicode() {
    let p = properties("/a/c", vec![file("/a", &["[*]", "ÄB = ÖX", "Charset = ÄÖ"])]).unwrap();
    let mut v = p.iter();
    v.sort();
    assert_eq!(v, vec![("charset", "äö"), ("äb", "ÖX")]);
}

#[test]
fn unicode_whitespace_is_trimmed() {
    let p = properties("/a/c", vec![file("/a", &["\u{3000}[*]\u{a0}", "\u{2003}k\t=\u{85}v\r"])])
        .unwrap();
    assert_eq!(p.iter(), vec![("k", "v")]);
}

#[test]
fn retain_keeps_what_the_predicate_accepts() {
    let mut p = properties(
        "/a/c",
        vec![file("/a", &["[*]", "indent_style = unset", "x = Unset", "y = 2"])],
    )
    .unwrap();
    p.retain(|_key, value| !value.eq_ignore_ascii_case("unset"));
    let mut v = p.iter();
    v.sort();
    assert_eq!(v, vec![("y", "2")]);
}

#[test]
fn value_by_str() {
    let p = properties("/a/c", vec![file("/a", &["[*]", "y = 2"])]).unwrap();
    assert_eq!(p.value("y"), Some("2"));
    assert_eq!(p.value("z"), None);
}
