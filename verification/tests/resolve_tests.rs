use editorconfig_core::paths::ancestor_dirs;
use std::path::Path;
use editorconfig_core::resolve::{parse_dir, process_properties};
use editorconfig_core::rules::{parse_pair, PairRule, Stop};
use editorconfig_core::{
    properties, properties_with_options, try_properties, try_properties_with_options,
    EditorConfigFile, Error, Options, Properties, Version,
};

fn file(dir: &str, lines: &[&str]) -> EditorConfigFile {
    EditorConfigFile {
        dir: dir.to_string(),
        lines: lines.iter().map(|l| format!("{l}\n")).collect(),
        read_error: None,
    }
}

fn sorted(p: &Properties) -> Vec<(String, String)> {
    let mut v: Vec<(String, String)> =
        p.iter().into_iter().map(|(k, v)| (k.to_string(), v.to_string())).collect();
    v.sort();
    v
}

fn pairs(list: &[(&str, &str)]) -> Vec<(String, String)> {
    let mut v: Vec<(String, String)> =
        list.iter().map(|(k, v)| (k.to_string(), v.to_string())).collect();
    v.sort();
    v
}

fn sample() -> Vec<EditorConfigFile> {
    vec![
        file("/home", &["root = true", "", "[*]", "Indent_Style = Tab", "charset = UTF-8"]),
        file("/home/me", &["# comment", "[*.md]", "indent_size = 4", "Foo = Bar", "[*.txt]", "x = y"]),
    ]
}

#[test]
fn supported_values_are_lowercased_others_kept() {
    let p = properties("/home/me/README.md", sample()).unwrap();
    assert_eq!(
        sorted(&p),
        pairs(&[
            ("indent_style", "tab"),
            ("charset", "utf-8"),
            ("indent_size", "4"),
            ("tab_width", "4"),
            ("foo", "Bar"),
        ])
    );
}

#[test]
fn all_values_lowercased_by_properties_new() {
    let p = Properties::new("/home/me/README.md", sample()).unwrap();
    assert_eq!(
        sorted(&p),
        pairs(&[
            ("indent_style", "tab"),
            ("charset", "utf-8"),
            ("indent_size", "4"),
            ("tab_width", "4"),
            ("foo", "bar"),
        ])
    );
}

#[test]
fn closer_file_overrides() {
    let files = vec![
        file("/a", &["[*]", "indent_size = 2"]),
        file("/a/b", &["[*]", "indent_size = 8"]),
    ];
    let p = properties("/a/b/c.rs", files).unwrap();
    assert_eq!(sorted(&p), pairs(&[("indent_size", "8"), ("tab_width", "8")]));
}

#[test]
fn root_discards_outer_files() {
    let files = vec![
        file("/a", &["[*]", "indent_size = 2", "end_of_line = lf"]),
        file("/a/b", &["ROOT = TRUE", "[*]", "charset = latin1"]),
    ];
    let p = properties("/a/b/c.rs", files).unwrap();
    assert_eq!(sorted(&p), pairs(&[("charset", "latin1")]));
}

#[test]
fn root_after_a_section_does_nothing() {
    let files = vec![
        file("/a", &["[*]", "indent_size = 2"]),
        file("/a/b", &["[x]", "root = true"]),
    ];
    let p = properties("/a/b/c.rs", files).unwrap();
    assert_eq!(sorted(&p), pairs(&[("indent_size", "2"), ("tab_width", "2")]));
}

#[test]
fn preamble_pairs_are_ignored() {
    let files = vec![file("/a", &["indent_size = 2", "[*]", "charset = utf-8"])];
    let p = properties("/a/c.rs", files).unwrap();
    assert_eq!(sorted(&p), pairs(&[("charset", "utf-8")]));
}

#[test]
fn unset_key_is_dropped_by_properties() {
    let files = vec![file("/a", &["[*]", "unset = 1", "indent_style = unset"])];
    let p = properties("/a/c.rs", files).unwrap();
    assert_eq!(sorted(&p), pairs(&[("indent_style", "unset")]));
}

#[test]
fn unset_value_removes_with_properties_new() {
    let files = vec![
        file("/a", &["[*]", "indent_style = space"]),
        file("/a/b", &["[*]", "indent_style = UnSet"]),
    ];
    let p = Properties::new("/a/b/c.rs", files).unwrap();
    assert_eq!(sorted(&p), pairs(&[]));
}

#[test]
fn unset_value_kept_when_not_allowed() {
    let files = vec![file("/a", &["[*]", "indent_style = UnSet"])];
    let options = Options { allow_unset: false, ..Options::default() };
    let p = Properties::new_with_options("/a/c.rs", files, options).unwrap();
    assert_eq!(sorted(&p), pairs(&[("indent_style", "unset")]));
}

#[test]
fn tab_style_implies_tab_size_and_width() {
    let files = vec![file("/a", &["[*]", "indent_style = tab", "tab_width = 3"])];
    let p = properties("/a/c.rs", files).unwrap();
    assert_eq!(
        sorted(&p),
        pairs(&[("indent_style", "tab"), ("indent_size", "3"), ("tab_width", "3")])
    );
}

#[test]
fn tab_style_alone() {
    let files = vec![file("/a", &["[*]", "indent_style = tab"])];
    let p = properties("/a/c.rs", files).unwrap();
    assert_eq!(sorted(&p), pairs(&[("indent_style", "tab"), ("indent_size", "tab")]));
}

#[test]
fn old_version_copies_tab_size_to_width() {
    let files = vec![file("/a", &["[*]", "indent_style = tab", "indent_size = tab"])];
    let options = Options { version: Version { major: 0, minor: 8, patch: 0 }, ..Options::default() };
    let p = properties_with_options("/a/c.rs", files, options).unwrap();
    assert_eq!(
        sorted(&p),
        pairs(&[("indent_style", "tab"), ("indent_size", "tab"), ("tab_width", "tab")])
    );
}

#[test]
fn invalid_glob_is_a_parse_error() {
    let files = vec![file("/a", &["[{3..1}]", "x = y"])];
    assert!(matches!(properties("/a/c.rs", files), Err(Error::Parse)));
}

#[test]
fn root_directory_file_applies() {
    let files = vec![file("/", &["[*]", "k = v"])];
    let p = properties("/a.txt", files).unwrap();
    assert_eq!(sorted(&p), pairs(&[("k", "v")]));
    let files = vec![file("/", &["[*.txt]", "k = v"]), file("/a", &["[b/*]", "x = y"])];
    let p = properties("/a/b/c.txt", files).unwrap();
    assert_eq!(sorted(&p), pairs(&[("k", "v"), ("x", "y")]));
}

#[test]
fn tab_width_value_is_lowercased() {
    let files = vec![file("/a", &["[*]", "Tab_Width = UNSET"])];
    let p = properties("/a/c.rs", files).unwrap();
    assert_eq!(sorted(&p), pairs(&[("tab_width", "unset")]));
}

#[test]
fn pairs_before_a_bad_section_stay_applied() {
    let f = file("/p", &["[*]", "a = 1", "[{3..1}]", "b = 2"]);
    let mut props = Properties::empty();
    let r = parse_dir(&f, 0, "/p/a.py", &mut props, PairRule::LowercaseSupported);
    assert_eq!(r, Err(Stop::Parse));
    assert_eq!(sorted(&props), pairs(&[("a", "1")]));
}

#[test]
fn read_failure_is_an_io_error() {
    let mut files = vec![file("/a", &["[*]", "x = y"]), file("/a/b", &["[*]"])];
    files[1].read_error = Some(std::io::Error::new(std::io::ErrorKind::InvalidData, "bad"));
    match properties("/a/b/c.rs", files) {
        Err(Error::Io(e)) => assert_eq!(e.kind(), std::io::ErrorKind::InvalidData),
        other => panic!("unexpected {other:?}"),
    }
}

#[test]
fn earlier_parse_error_wins_over_later_read_failure() {
    let mut files = vec![file("/a", &["[{3..1}]"]), file("/a/b", &[])];
    files[1].read_error = Some(std::io::Error::new(std::io::ErrorKind::Other, "bad"));
    assert!(matches!(properties("/a/b/c.rs", files), Err(Error::Parse)));
}

#[test]
fn unmatchable_glob_gives_none() {
    let files = vec![file("/d", &["[{a,{1..3}}]", "x = y"])];
    assert!(try_properties("/d/a", files).is_none());
    let files = vec![file("/d", &["[{a,{1..3}}]", "x = y"])];
    assert!(try_properties_with_options("/d/2", files, Options::default())
        .unwrap()
        .is_ok());
    let files = vec![file("/d", &["[{a,{1..3}}]", "x = y"])];
    assert!(Properties::try_new("/d/a", files).is_none());
}

#[test]
fn missing_files_change_nothing() {
    let files = vec![file("/a", &[]), file("/a/b", &["[*]", "x = y"])];
    let p = properties("/a/b/c", files).unwrap();
    assert_eq!(sorted(&p), pairs(&[("x", "y")]));
}

#[test]
fn pair_splitting() {
    let c: Vec<char> = "  key = a = b ".chars().collect();
    let t: Vec<char> = c.iter().copied().filter(|_| true).collect();
    let (k, v) = parse_pair(&t).unwrap();
    assert_eq!(k.iter().collect::<String>(), "key");
    assert_eq!(v.iter().collect::<String>(), "a = b");
    let c: Vec<char> = " = x".chars().collect();
    assert!(parse_pair(&c).is_none());
    let c: Vec<char> = "novalue".chars().collect();
    assert!(parse_pair(&c).is_none());
}

#[test]
fn processing_twice_is_processing_once() {
    let files = vec![file("/a", &["[*]", "indent_style = tab", "tab_width = tab"])];
    let mut p = properties("/a/c.rs", files).unwrap();
    let before = sorted(&p);
    process_properties(&mut p, Version { major: 0, minor: 17, patch: 2 });
    assert_eq!(sorted(&p), before);
}

#[test]
fn stop_kinds_are_distinct() {
    assert_ne!(Stop::Parse, Stop::Unmatchable);
    assert_ne!(PairRule::LowercaseSupported, PairRule::LowercaseAll { allow_unset: true });
}

#[test]
fn ancestors_follow_std_paths() {
    for p in [
        "/home/me/README.md",
        "a/b",
        "a",
        "/",
        "",
        "/a/./b",
        "/a//b/",
        "./a/b",
        "a/b/.",
        "/a/../b",
        "//x/y",
    ] {
        let std_dirs: Vec<String> = Path::new(p)
            .ancestors()
            .skip(1)
            .map(|d| d.to_str().unwrap().to_string())
            .collect::<Vec<_>>()
            .into_iter()
            .rev()
            .collect();
        assert_eq!(ancestor_dirs(p), std_dirs, "path {p:?}");
    }
}

#[test]
fn upper_case_indent_style_key_drives_the_adjustment() {
    let files = vec![file("/a", &["[*]", "INDENT_STYLE = TAB"])];
    let p = properties("/a/c.rs", files).unwrap();
    assert_eq!(sorted(&p), pairs(&[("indent_style", "tab"), ("indent_size", "tab")]));
}

#[test]
fn no_value_is_unset_after_properties_new() {
    let files = vec![file("/a", &["[*]", "a = UNSET", "b = Unset", "c = x"])];
    let p = Properties::new("/a/c.rs", files).unwrap();
    assert!(p.iter().iter().all(|(_, v)| !v.eq_ignore_ascii_case("unset")));
    assert_eq!(sorted(&p), pairs(&[("c", "x")]));
}
