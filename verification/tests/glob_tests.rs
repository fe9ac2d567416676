use editorconfig_core::glob::{
    check_are_braces_paired, is_single_item_braces, match_in_range, parse_i32, parse_range, Glob,
    GlobError, Parser, groups_in_ranges,
};

fn chars(s: &str) -> Vec<char> {
    s.chars().collect()
}

fn regex_of(pattern: &str) -> (String, Vec<(i32, i32)>) {
    let p = chars(pattern);
    let (re, ranges) = Parser::new(&p).parse();
    (re.into_iter().collect(), ranges)
}

#[test]
fn star_stays_within_a_component() {
    assert_eq!(regex_of("*.md").0, "[^/]*\\.md");
}

#[test]
fn double_star_crosses_components() {
    assert_eq!(regex_of("**/x").0, ".*/x");
}

#[test]
fn question_mark_is_one_character() {
    assert_eq!(regex_of("a?c").0, "a[^/]c");
}

#[test]
fn brackets_take_members_literally() {
    assert_eq!(regex_of("[a-z]").0, "[a-z]");
    assert_eq!(regex_of("[-a]").0, "[\\-a]");
    assert_eq!(regex_of("[a-]").0, "[a\\-]");
    assert_eq!(regex_of("[a\\-z]").0, "[a\\-z]");
    assert_eq!(regex_of("[!-a]").0, "[^\\-a]");
    assert_eq!(regex_of("[a-c-e]").0, "[a-c\\-e]");
    assert_eq!(regex_of("[!abc]").0, "[^abc]");
    assert_eq!(regex_of("[a\\]]").0, "[a\\]]");
}

#[test]
fn alternatives_become_a_group() {
    assert_eq!(regex_of("{a,b}").0, "(?:a|b)");
    assert_eq!(regex_of("x{a,b}y").0, "x(?:a|b)y");
}

#[test]
fn numeric_range_is_captured() {
    let (re, ranges) = regex_of("{1..3}.txt");
    assert_eq!(re, "([\\+\\-]?\\d+)\\.txt");
    assert_eq!(ranges, vec![(1, 3)]);
}

#[test]
fn single_item_braces_are_literal() {
    assert_eq!(regex_of("{s1}").0, "\\{s1\\}");
}

#[test]
fn unpaired_braces_are_literal() {
    assert_eq!(regex_of("{a").0, "\\{a");
    assert_eq!(regex_of("a}").0, "a\\}");
}

#[test]
fn comma_outside_braces_is_literal() {
    assert_eq!(regex_of("a,b").0, "a\\,b");
}

#[test]
fn escapes() {
    assert_eq!(regex_of("\\*").0, "\\*");
    assert_eq!(regex_of("\\a").0, "\\\\a");
    assert_eq!(regex_of("a\\").0, "a\\\\");
}

#[test]
fn plain_pattern_is_its_escaped_self() {
    assert_eq!(regex_of("a.b-c").0, "a\\.b\\-c");
    assert_eq!(regex_of("a.b-c").1, vec![]);
}

#[test]
fn braces_pairing() {
    assert!(check_are_braces_paired(&chars("{a,{b}}")));
    assert!(!check_are_braces_paired(&chars("}{")));
    assert!(!check_are_braces_paired(&chars("{")));
    assert!(check_are_braces_paired(&chars("\\{")));
    assert!(check_are_braces_paired(&chars("")));
}

#[test]
fn single_item_scan() {
    assert_eq!(is_single_item_braces(&chars("x{ab}"), 1), Some(3));
    assert_eq!(is_single_item_braces(&chars("{a,b}"), 0), None);
    assert_eq!(is_single_item_braces(&chars("{a\\}b}"), 0), Some(5));
    assert_eq!(is_single_item_braces(&chars("{ab"), 0), None);
}

#[test]
fn i32_parsing() {
    assert_eq!(parse_i32(&chars("42")), Some(42));
    assert_eq!(parse_i32(&chars("+7")), Some(7));
    assert_eq!(parse_i32(&chars("-2147483648")), Some(i32::MIN));
    assert_eq!(parse_i32(&chars("2147483647")), Some(i32::MAX));
    assert_eq!(parse_i32(&chars("2147483648")), None);
    assert_eq!(parse_i32(&chars("-")), None);
    assert_eq!(parse_i32(&chars("")), None);
    assert_eq!(parse_i32(&chars("1a")), None);
    assert_eq!(parse_i32(&chars("99999999999999999999x")), None);
}

#[test]
fn range_parsing() {
    assert_eq!(parse_range(&chars("{1..3}")), Some((1, 3)));
    assert_eq!(parse_range(&chars("{-3..+5}")), Some((-3, 5)));
    assert_eq!(parse_range(&chars("{1...3}")), None);
    assert_eq!(parse_range(&chars("{a..b}")), None);
    assert_eq!(parse_range(&chars("1..3")), None);
}

#[test]
fn glob_matches_below_its_directory() {
    let g = Glob::new("/home/me", "*.md").unwrap();
    assert_eq!(g.is_match("/home/me/README.md"), Some(true));
    assert_eq!(g.is_match("/home/me/sub/README.md"), Some(true));
    assert_eq!(g.is_match("/home/other/README.md"), Some(false));
    assert_eq!(g.is_match("/home/me/README.txt"), Some(false));
}

#[test]
fn glob_with_separator_is_anchored() {
    let g = Glob::new("/home/me", "sub/*.md").unwrap();
    assert_eq!(g.is_match("/home/me/sub/a.md"), Some(true));
    assert_eq!(g.is_match("/home/me/x/sub/a.md"), Some(false));
    let g = Glob::new("/home/me", "/a.md").unwrap();
    assert_eq!(g.is_match("/home/me/a.md"), Some(true));
}

#[test]
fn glob_directory_is_escaped() {
    let g = Glob::new("/a.b", "x").unwrap();
    assert_eq!(g.is_match("/a.b/x"), Some(true));
    assert_eq!(g.is_match("/aXb/x"), Some(false));
}

#[test]
fn glob_numeric_ranges() {
    let g = Glob::new("/d", "{1..3}.txt").unwrap();
    assert_eq!(g.is_match("/d/2.txt"), Some(true));
    assert_eq!(g.is_match("/d/+3.txt"), Some(true));
    assert_eq!(g.is_match("/d/5.txt"), Some(false));
    assert_eq!(g.is_match("/d/-1.txt"), Some(false));
}

#[test]
fn glob_errors() {
    assert_eq!(Glob::new("/d/", "*").err(), Some(GlobError::NonDirPath));
    assert_eq!(Glob::new("/d", "{3..1}").err(), Some(GlobError::InvalidRange));
    assert_eq!(Glob::new("/d", "{1..1}").err(), Some(GlobError::InvalidRange));
    assert_eq!(Glob::new("/d", "[").err(), Some(GlobError::RegexCompilation));
}

#[test]
fn glob_cannot_tell_when_a_checked_group_is_absent() {
    let g = Glob::new("/d", "{a,{1..3}}").unwrap();
    assert_eq!(g.is_match("/d/a"), None);
    assert_eq!(g.is_match("/d/2"), Some(true));
    assert_eq!(g.is_match("/d/4"), Some(false));
}

#[test]
fn alternative_groups_match_their_items_only() {
    let g = Glob::new("/d", "{a,b}.txt").unwrap();
    assert_eq!(g.is_match("/d/a.txt"), Some(true));
    assert_eq!(g.is_match("/d/b.txt"), Some(true));
    assert_eq!(g.is_match("/d/:a.txt"), Some(false));
    assert_eq!(g.is_match("/d/c.txt"), Some(false));
}

#[test]
fn ranges_pair_with_groups_in_order() {
    let g = Glob::new("/d", "{a,b}{1..3}").unwrap();
    assert_eq!(g.is_match("/d/a2"), Some(true));
    assert_eq!(g.is_match("/d/b9"), Some(false));
    let g = Glob::new("/d", "{1..3}{a,b}").unwrap();
    assert_eq!(g.is_match("/d/2a"), Some(true));
}

#[test]
fn in_range_check() {
    assert!(match_in_range("2", (1, 3)));
    assert!(match_in_range("3", (1, 3)));
    assert!(!match_in_range("4", (1, 3)));
    assert!(!match_in_range("x", (1, 3)));
}

#[test]
fn bracket_ranges_match_their_span() {
    let g = Glob::new("/d", "[a-c].txt").unwrap();
    assert_eq!(g.is_match("/d/b.txt"), Some(true));
    assert_eq!(g.is_match("/d/-.txt"), Some(false));
    assert_eq!(g.is_match("/d/d.txt"), Some(false));
}

#[test]
fn root_directory_globs() {
    let g = Glob::new("/", "*.txt").unwrap();
    assert_eq!(g.is_match("/a.txt"), Some(true));
    assert_eq!(g.is_match("/x/a.txt"), Some(true));
    let g = Glob::new("/", "x/a.txt").unwrap();
    assert_eq!(g.is_match("/x/a.txt"), Some(true));
    assert_eq!(g.is_match("/y/x/a.txt"), Some(false));
    let g = Glob::new("/", "/a.txt").unwrap();
    assert_eq!(g.is_match("/a.txt"), Some(true));
}

#[test]
fn groups_against_ranges() {
    let some = |s: &str| Some(s.to_string());
    assert_eq!(groups_in_ranges(&vec![], &vec![(1, 3)]), Some(true));
    assert_eq!(groups_in_ranges(&vec![some("x2"), some("2")], &vec![(1, 3)]), Some(true));
    assert_eq!(groups_in_ranges(&vec![some("x4"), some("4")], &vec![(1, 3)]), Some(false));
    assert_eq!(groups_in_ranges(&vec![some("x"), None], &vec![(1, 3)]), None);
    assert_eq!(groups_in_ranges(&vec![some("x"), some("9")], &vec![]), Some(true));
    assert_eq!(groups_in_ranges(&vec![some("x"), some("2"), some("7")], &vec![(1, 3), (5, 8)]), Some(true));
}

#[test]
fn dash_after_a_range_is_a_member() {
    let g = Glob::new("/d", "[a-c-e]").unwrap();
    assert_eq!(g.is_match("/d/b"), Some(true));
    assert_eq!(g.is_match("/d/-"), Some(true));
    assert_eq!(g.is_match("/d/e"), Some(true));
    assert_eq!(g.is_match("/d/d"), Some(false));
}
