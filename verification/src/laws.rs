//! Properties of the library as a whole.
use vstd::prelude::*;
use crate::resolve::{
    file_outcome, files_outcome, finish, lines_outcome, outcome, process, FileView, PropertyMap,
};
use crate::rules::{apply_pair, is_comment, is_supported_key, line_step, pair_of, section_of, PairRule};
use crate::text::{
    all_ascii, ascii_lower, ascii_lowercase, eq_ignore_ascii_case, lowered, trim, trim_end, trim_start,
};
use crate::glob::{
    all_digits, digits_value, dir_prefix, glob_outcome, groups_outcome, in_range, is_digit,
    is_root_dir, lemma_regex_step, parse_i32_spec, pattern_regex, regex_from, token,
};
use crate::matcher::{escape_all, literal, regex_compiles};
use crate::version::Version;

verus! {

/// The keys that `process` reads and writes are distinct.
proof fn lemma_process_keys_distinct()
    ensures
        "indent_style"@ != "indent_size"@,
        "indent_style"@ != "tab_width"@,
        "indent_size"@ != "tab_width"@,
{
    reveal_strlit("indent_style");
    reveal_strlit("indent_size");
    reveal_strlit("tab_width");
    assert("indent_style"@.len() == 12);
    assert("indent_size"@.len() == 11);
    assert("tab_width"@.len() == 9);
}

/// Adjusting the properties to a version twice gives what adjusting them
/// once gives.
pub proof fn law_process_idempotent(m: PropertyMap, version: Version)
    ensures
        process(process(m, version), version) == process(m, version),
{
    lemma_process_keys_distinct();
    assert(process(process(m, version), version) =~= process(m, version));
}

/// The version is 0.9.0 or later.
pub open spec fn from_v0_9_0(version: Version) -> bool {
    version.major > 0 || version.minor >= 9
}

/// From version 0.9.0 on, `indent_size = tab` takes the value of
/// `tab_width` where the properties have one, whatever `indent_style` says,
/// and `tab_width` keeps its value.
pub proof fn law_tab_indent_size_takes_tab_width(m: PropertyMap, version: Version)
    requires
        from_v0_9_0(version),
        m.contains_key("indent_size"@),
        m["indent_size"@] == "tab"@,
        m.contains_key("tab_width"@),
    ensures
        process(m, version).contains_key("indent_size"@),
        process(m, version)["indent_size"@] == m["tab_width"@],
        process(m, version).contains_key("tab_width"@),
        process(m, version)["tab_width"@] == m["tab_width"@],
{
    lemma_process_keys_distinct();
}

/// From version 0.9.0 on, `indent_style = tab` without an `indent_size`
/// gives `indent_size` the value of `tab_width` where there is one, and
/// `tab` where there is none.
pub proof fn law_tab_style_sets_indent_size(m: PropertyMap, version: Version)
    requires
        from_v0_9_0(version),
        m.contains_key("indent_style"@),
        m["indent_style"@] == "tab"@,
        !m.contains_key("indent_size"@),
    ensures
        process(m, version).contains_key("indent_size"@),
        process(m, version)["indent_size"@] == (if m.contains_key("tab_width"@) {
            m["tab_width"@]
        } else {
            "tab"@
        }),
{
    lemma_process_keys_distinct();
}

/// Before version 0.9.0, `indent_style` plays no part and `indent_size` is
/// kept as it is, `tab` included; the one change is that `tab_width`, where
/// missing, takes the value of `indent_size`.
pub proof fn law_before_v0_9_0(m: PropertyMap, version: Version)
    requires
        !from_v0_9_0(version),
    ensures
        process(m, version) == (if m.contains_key("indent_size"@) && !m.contains_key(
            "tab_width"@,
        ) {
            m.insert("tab_width"@, m["indent_size"@])
        } else {
            m
        }),
{
}

/// In every version, an `indent_size` other than `tab` stays as it is and
/// is the value of `tab_width` where the properties have none.
pub proof fn law_tab_width_defaults_to_indent_size(m: PropertyMap, version: Version)
    requires
        m.contains_key("indent_size"@),
        m["indent_size"@] != "tab"@,
        !m.contains_key("tab_width"@),
    ensures
        process(m, version).contains_key("indent_size"@),
        process(m, version)["indent_size"@] == m["indent_size"@],
        process(m, version).contains_key("tab_width"@),
        process(m, version)["tab_width"@] == m["indent_size"@],
{
    lemma_process_keys_distinct();
}


/// A `root = true` line (keys and values in any ASCII case).
pub open spec fn is_root_line(raw: Seq<char>) -> bool {
    let l = trim(raw);
    &&& !is_comment(l)
    &&& section_of(l) is None
    &&& pair_of(l) matches Some(kv) && eq_ignore_ascii_case(kv.0, "root"@) && eq_ignore_ascii_case(
        kv.1,
        "true"@,
    )
}

/// The file says `root = true` before its first section.
pub open spec fn root_in_preamble(f: FileView) -> bool {
    exists|j: int|
        0 <= j < f.lines.len() && #[trigger] is_root_line(f.lines[j]) && forall|i: int|
            0 <= i < j ==> section_of(trim(#[trigger] f.lines[i])) is None
}

/// Up to a root line of the preamble, the properties are either the ones
/// the file started with or none, and no section has begun.
proof fn lemma_preamble(
    m0: PropertyMap,
    lines: Seq<Seq<char>>,
    i: int,
    file_path: Seq<char>,
    dir: Seq<char>,
    rule: PairRule,
)
    requires
        0 <= i <= lines.len(),
        forall|h: int| 0 <= h < i ==> section_of(trim(#[trigger] lines[h])) is None,
    ensures
        lines_outcome(m0, lines, i, file_path, dir, rule) matches Ok(st) && st.1 is None && (st.0
            == m0 || st.0 == Map::<Seq<char>, Seq<char>>::empty()),
    decreases i,
{
    if i > 0 {
        lemma_preamble(m0, lines, i - 1, file_path, dir, rule);
        assert(section_of(trim(lines[i - 1])) is None);
    }
}

/// From a root line of the preamble on, the properties the file started
/// with no longer matter.
proof fn lemma_after_root(
    m0: PropertyMap,
    m1: PropertyMap,
    lines: Seq<Seq<char>>,
    j: int,
    n: int,
    file_path: Seq<char>,
    dir: Seq<char>,
    rule: PairRule,
)
    requires
        0 <= j < n <= lines.len(),
        is_root_line(lines[j]),
        forall|h: int| 0 <= h < j ==> section_of(trim(#[trigger] lines[h])) is None,
    ensures
        lines_outcome(m0, lines, n, file_path, dir, rule) == lines_outcome(
            m1,
            lines,
            n,
            file_path,
            dir,
            rule,
        ),
    decreases n,
{
    if n == j + 1 {
        lemma_preamble(m0, lines, j, file_path, dir, rule);
        lemma_preamble(m1, lines, j, file_path, dir, rule);
    } else {
        lemma_after_root(m0, m1, lines, j, n - 1, file_path, dir, rule);
    }
}

/// Two lists of files that agree from file `k` on, file `k` declaring
/// `root = true` in its preamble, stop or end alike after file `k`.
proof fn lemma_files_after_root(
    a: Seq<FileView>,
    b: Seq<FileView>,
    k: int,
    n: int,
    file_path: Seq<char>,
    rule: PairRule,
)
    requires
        0 <= k < n <= a.len(),
        a.len() == b.len(),
        forall|i: int| k <= i < a.len() ==> #[trigger] a[i] == b[i],
        root_in_preamble(a[k]),
        files_outcome(a, k, file_path, rule) is Ok,
        files_outcome(b, k, file_path, rule) is Ok,
    ensures
        files_outcome(a, n, file_path, rule) == files_outcome(b, n, file_path, rule),
    decreases n,
{
    if n == k + 1 {
        let f = a[k];
        assert(b[k] == f);
        let j = choose|j: int|
            0 <= j < f.lines.len() && #[trigger] is_root_line(f.lines[j]) && forall|i: int|
                0 <= i < j ==> section_of(trim(#[trigger] f.lines[i])) is None;
        let ma = files_outcome(a, k, file_path, rule).unwrap();
        let mb = files_outcome(b, k, file_path, rule).unwrap();
        lemma_after_root(ma, mb, f.lines, j, f.lines.len() as int, file_path, f.dir, rule);
    } else {
        lemma_files_after_root(a, b, k, n - 1, file_path, rule);
        assert(a[n - 1] == b[n - 1]);
    }
}

/// An EditorConfig file that says `root = true` before its first section
/// makes the files of the directories above it irrelevant, as long as they
/// can be read: changing them changes nothing.
pub proof fn law_root_discards_outer_files(
    a: Seq<FileView>,
    b: Seq<FileView>,
    k: int,
    file_path: Seq<char>,
    version: Version,
    rule: PairRule,
)
    requires
        0 <= k < a.len(),
        a.len() == b.len(),
        forall|i: int| k <= i < a.len() ==> #[trigger] a[i] == b[i],
        root_in_preamble(a[k]),
        files_outcome(a, k, file_path, rule) is Ok,
        files_outcome(b, k, file_path, rule) is Ok,
    ensures
        outcome(file_path, a, version, rule) == outcome(file_path, b, version, rule),
{
    lemma_files_after_root(a, b, k, a.len() as int, file_path, rule);
}


/// Every key is the lower case of some string.
pub open spec fn keys_lowercased(m: PropertyMap) -> bool {
    forall|k: Seq<char>| #[trigger] m.contains_key(k) ==> exists|s: Seq<char>| k == lowered(s)
}

proof fn lemma_lines_keep_lowercase(
    m0: PropertyMap,
    lines: Seq<Seq<char>>,
    n: int,
    file_path: Seq<char>,
    dir: Seq<char>,
    rule: PairRule,
)
    requires
        keys_lowercased(m0),
    ensures
        lines_outcome(m0, lines, n, file_path, dir, rule) matches Ok(st) ==> keys_lowercased(st.0),
    decreases n,
{
    if n > 0 {
        lemma_lines_keep_lowercase(m0, lines, n - 1, file_path, dir, rule);
        match lines_outcome(m0, lines, n - 1, file_path, dir, rule) {
            Ok(st) => {
                let l = trim(lines[n - 1]);
                match pair_of(l) {
                    Some(kv) => {
                        let m2 = apply_pair(st.0, kv.0, kv.1, rule);
                        assert forall|k: Seq<char>| #[trigger] m2.contains_key(k) implies exists|
                            s: Seq<char>,
                        | k == lowered(s) by {
                            if k == lowered(kv.0) {
                            } else {
                                assert(st.0.contains_key(k));
                            }
                        }
                    },
                    None => {},
                }
            },
            Err(_) => {},
        }
    }
}

proof fn lemma_files_keep_lowercase(files: Seq<FileView>, n: int, file_path: Seq<char>, rule: PairRule)
    ensures
        files_outcome(files, n, file_path, rule) matches Ok(m) ==> keys_lowercased(m),
    decreases n,
{
    if n > 0 {
        lemma_files_keep_lowercase(files, n - 1, file_path, rule);
        match files_outcome(files, n - 1, file_path, rule) {
            Ok(m) => {
                let f = files[n - 1];
                lemma_lines_keep_lowercase(
                    m,
                    f.lines,
                    f.lines.len() as int,
                    file_path,
                    f.dir,
                    rule,
                );
            },
            Err(_) => {},
        }
    }
}

/// All the keys of the properties are lower-cased with `str::to_lowercase`,
/// but for the `indent_size` and `tab_width` that the version adjustment
/// adds.
pub proof fn law_keys_lowercased(
    file_path: Seq<char>,
    files: Seq<FileView>,
    version: Version,
    rule: PairRule,
)
    ensures
        outcome(file_path, files, version, rule) matches Ok(m) ==> forall|k: Seq<char>|
            #[trigger] m.contains_key(k) ==> (exists|s: Seq<char>| k == lowered(s)) || k
                == "indent_size"@ || k == "tab_width"@,
{
    lemma_files_keep_lowercase(files, files.len() as int, file_path, rule);
    match files_outcome(files, files.len() as int, file_path, rule) {
        Ok(m) => {
            let r = finish(process(m, version), rule);
            assert forall|k: Seq<char>| #[trigger] r.contains_key(k) implies (exists|s: Seq<char>|
                k == lowered(s)) || k == "indent_size"@ || k == "tab_width"@ by {
                if k != "indent_size"@ && k != "tab_width"@ {
                    assert(m.contains_key(k));
                }
            }
        },
        Err(_) => {},
    }
}


/// Under `LowercaseSupported`, the rule of `properties`, the properties
/// never hold a key `unset`.
pub proof fn law_no_unset_key(
    file_path: Seq<char>,
    files: Seq<FileView>,
    version: Version,
)
    ensures
        outcome(file_path, files, version, PairRule::LowercaseSupported) matches Ok(m)
            ==> !m.contains_key("unset"@),
{
}


/// A character with no meaning in a glob.
pub open spec fn is_plain(c: char) -> bool {
    !(c == '\\' || c == '?' || c == '*' || c == '[' || c == '{' || c == '}' || c == ',')
}

/// A run of plain characters translates into the run, escaped.
proof fn lemma_plain_run(p: Seq<char>, i: int, j: int, paired: bool, level: u32)
    requires
        0 <= i <= j <= p.len(),
        forall|h: int| i <= h < j ==> is_plain(#[trigger] p[h]),
    ensures
        regex_from(p, i, paired, level) == (
            escape_all(p.subrange(i, j)) + regex_from(p, j, paired, level).0,
            regex_from(p, j, paired, level).1,
        ),
    decreases j - i,
{
    let rest = regex_from(p, j, paired, level);
    if i == j {
        assert(p.subrange(i, j) =~= Seq::<char>::empty());
        assert(escape_all(p.subrange(i, j)) + rest.0 =~= rest.0);
    } else {
        assert(is_plain(p[i]));
        lemma_regex_step(p, i, paired, level);
        lemma_plain_run(p, i + 1, j, paired, level);
        assert(p.subrange(i, j).drop_first() =~= p.subrange(i + 1, j));
        assert(escape_all(p.subrange(i, j)) == literal(p[i]) + escape_all(p.subrange(i + 1, j)));
        assert(literal(p[i]) + (escape_all(p.subrange(i + 1, j)) + rest.0) =~= escape_all(
            p.subrange(i, j),
        ) + rest.0);
        assert(Seq::<(i32, i32)>::empty() + rest.1 =~= rest.1);
    }
}

/// The regex of a pattern ends with that of its plain tail.
proof fn lemma_plain_tail(p: Seq<char>, i: int, paired: bool, level: u32)
    requires
        0 <= i <= p.len(),
        forall|h: int| i <= h < p.len() ==> is_plain(#[trigger] p[h]),
    ensures
        regex_from(p, i, paired, level) == (escape_all(p.skip(i)), Seq::<(i32, i32)>::empty()),
{
    lemma_plain_run(p, i, p.len() as int, paired, level);
    assert(p.subrange(i, p.len() as int) =~= p.skip(i));
    assert(escape_all(p.skip(i)) + Seq::<char>::empty() =~= escape_all(p.skip(i)));
}

/// A glob without any of `\ ? * [ { } ,` matches itself literally: its
/// regex is the pattern with each regex meta character escaped, with no
/// numeric ranges.
pub proof fn law_plain_pattern_is_literal(p: Seq<char>)
    requires
        forall|h: int| 0 <= h < p.len() ==> is_plain(#[trigger] p[h]),
    ensures
        pattern_regex(p) == (escape_all(p), Seq::<(i32, i32)>::empty()),
{
    lemma_plain_tail(p, 0, crate::glob::braces_paired(p), 0);
    assert(p.skip(0) =~= p);
}

/// The regex of every section glob is anchored at both ends: it begins
/// with `^` and ends with `$`, so that the whole path has to match.
pub proof fn law_glob_regex_anchored(dir: Seq<char>, p: Seq<char>)
    ensures
        glob_outcome(dir, p) matches Ok(g) ==> g.0.len() >= 2 && g.0[0] == '^' && g.0.last()
            == '$',
{
    match glob_outcome(dir, p) {
        Ok(g) => {
            let mid = escape_all(dir_prefix(dir)) + crate::glob::separator_part(p) + pattern_regex(
                p,
            ).0;
            assert(g.0 =~= seq!['^'] + mid + seq!['$']);
        },
        Err(_) => {},
    }
}

/// A glob of plain characters without `/`, such as `Makefile`, matches a
/// file of that name in the directory of the EditorConfig file or below it,
/// and nothing else: its regex is `^`, the escaped directory, `.*/`, the
/// escaped glob and `$`, with no numeric ranges. It is built unless the
/// directory ends with `/` (and is not the root) or the regex engine
/// refuses the regex.
pub proof fn law_plain_glob_matches_name(dir: Seq<char>, p: Seq<char>)
    requires
        forall|h: int| 0 <= h < p.len() ==> is_plain(#[trigger] p[h]),
        !p.contains('/'),
    ensures
        ({
            let re = seq!['^'] + escape_all(dir_prefix(dir)) + seq!['.', '*', '/'] + escape_all(p)
                + seq!['$'];
            &&& glob_outcome(dir, p) is Ok <==> !(dir.len() > 0 && dir.last() == '/'
                && !is_root_dir(dir)) && regex_compiles(re)
            &&& glob_outcome(dir, p) matches Ok(g) ==> g == (re, Seq::<(i32, i32)>::empty())
        }),
{
    law_plain_pattern_is_literal(p);
    let re = seq!['^'] + escape_all(dir_prefix(dir)) + seq!['.', '*', '/'] + escape_all(p) + seq![
        '$',
    ];
    assert(crate::glob::glob_regex(dir, p) =~= re);
    assert(crate::glob::ranges_ascending(Seq::<(i32, i32)>::empty()));
}


/// Every character of `s` is plain.
pub open spec fn all_plain(s: Seq<char>) -> bool {
    forall|h: int| 0 <= h < s.len() ==> is_plain(#[trigger] s[h])
}

/// An ASCII letter or digit.
pub open spec fn is_alnum(c: char) -> bool {
    ('a' <= c && c <= 'z') || ('A' <= c && c <= 'Z') || ('0' <= c && c <= '9')
}

/// A pattern made of plain text, one construct `w` that the token at its
/// start covers whole (at brace level 0 before and after), and plain text:
/// its regex is the escaped text around the construct's regex.
proof fn lemma_token_between_plain(a: Seq<char>, w: Seq<char>, b: Seq<char>)
    requires
        all_plain(a),
        all_plain(b),
        w.len() > 0,
        ({
            let p = a + w + b;
            let t = token(p, a.len() as int, crate::glob::braces_paired(p), 0);
            t.2 == a.len() + w.len() && t.3 == 0
        }),
    ensures
        ({
            let p = a + w + b;
            let t = token(p, a.len() as int, crate::glob::braces_paired(p), 0);
            pattern_regex(p) == (escape_all(a) + t.0 + escape_all(b), t.1)
        }),
{
    let p = a + w + b;
    let n = a.len() as int;
    let m = n + w.len();
    let paired = crate::glob::braces_paired(p);
    let t = token(p, n, paired, 0);
    assert forall|h: int| 0 <= h < n implies is_plain(#[trigger] p[h]) by {
        assert(p[h] == a[h]);
    }
    lemma_plain_run(p, 0, n, paired, 0);
    assert(p.subrange(0, n) =~= a);
    lemma_regex_step(p, n, paired, 0);
    assert forall|h: int| m <= h < p.len() implies is_plain(#[trigger] p[h]) by {
        assert(p[h] == b[h - m]);
    }
    lemma_plain_tail(p, m, paired, 0);
    assert(p.skip(m) =~= b);
    assert(escape_all(a) + (t.0 + escape_all(b)) =~= escape_all(a) + t.0 + escape_all(b));
    assert(t.1 + Seq::<(i32, i32)>::empty() =~= t.1);
}

/// Between plain text, `*` matches any characters but `/`: it becomes
/// `[^/]*`.
pub proof fn law_glob_star(a: Seq<char>, b: Seq<char>)
    requires
        all_plain(a),
        all_plain(b),
    ensures
        pattern_regex(a + seq!['*'] + b) == (
            escape_all(a) + seq!['[', '^', '/', ']', '*'] + escape_all(b),
            Seq::<(i32, i32)>::empty(),
        ),
{
    let p = a + seq!['*'] + b;
    let n = a.len() as int;
    assert(p[n] == '*');
    if b.len() > 0 {
        assert(p[n + 1] == b[0]);
        assert(is_plain(b[0]));
    }
    lemma_token_between_plain(a, seq!['*'], b);
}

/// Between plain text, `**` matches any characters, `/` included: it
/// becomes `.*`.
pub proof fn law_glob_double_star(a: Seq<char>, b: Seq<char>)
    requires
        all_plain(a),
        all_plain(b),
    ensures
        pattern_regex(a + seq!['*', '*'] + b) == (
            escape_all(a) + seq!['.', '*'] + escape_all(b),
            Seq::<(i32, i32)>::empty(),
        ),
{
    let p = a + seq!['*', '*'] + b;
    let n = a.len() as int;
    assert(p[n] == '*');
    assert(p[n + 1] == '*');
    lemma_token_between_plain(a, seq!['*', '*'], b);
}

/// Between plain text, `?` matches one character but `/`: it becomes
/// `[^/]`.
pub proof fn law_glob_question_mark(a: Seq<char>, b: Seq<char>)
    requires
        all_plain(a),
        all_plain(b),
    ensures
        pattern_regex(a + seq!['?'] + b) == (
            escape_all(a) + seq!['[', '^', '/', ']'] + escape_all(b),
            Seq::<(i32, i32)>::empty(),
        ),
{
    let p = a + seq!['?'] + b;
    assert(p[a.len() as int] == '?');
    lemma_token_between_plain(a, seq!['?'], b);
}

/// Inside brackets, characters other than `\`, `]` and `-` are members as
/// they are, escaped, up to the closing `]`.
proof fn lemma_bracket_members(p: Seq<char>, k: int, j: int, state: int)
    requires
        0 <= k <= j < p.len(),
        p[j] == ']',
        forall|h: int| k <= h < j ==> #[trigger] p[h] != '\\' && p[h] != ']' && p[h] != '-',
    ensures
        crate::glob::bracket_body(p, k, false, state) == (
            escape_all(p.subrange(k, j)) + seq![']'],
            j + 1,
        ),
    decreases j - k,
{
    if k == j {
        assert(p.subrange(k, j) =~= Seq::<char>::empty());
        assert(escape_all(p.subrange(k, j)) + seq![']'] =~= seq![']']);
    } else {
        assert(p[k] != '\\' && p[k] != ']' && p[k] != '-');
        lemma_bracket_members(p, k + 1, j, crate::glob::member_state(state));
        assert(p.subrange(k, j).drop_first() =~= p.subrange(k + 1, j));
        assert(escape_all(p.subrange(k, j)) == literal(p[k]) + escape_all(p.subrange(k + 1, j)));
        assert(literal(p[k]) + (escape_all(p.subrange(k + 1, j)) + seq![']']) =~= escape_all(
            p.subrange(k, j),
        ) + seq![']']);
    }
}

/// Between plain text, `[c]` matches one character of `c`: it becomes a
/// regex class of the members of `c`, escaped. (`c` here holds no `]`, no
/// `-`, and does not start with `!`.)
pub proof fn law_glob_bracket(a: Seq<char>, c: Seq<char>, b: Seq<char>)
    requires
        all_plain(a),
        all_plain(c),
        all_plain(b),
        !c.contains(']'),
        !c.contains('-'),
        !(c.len() > 0 && c[0] == '!'),
    ensures
        pattern_regex(a + (seq!['['] + c + seq![']']) + b) == (
            escape_all(a) + (seq!['['] + escape_all(c) + seq![']']) + escape_all(b),
            Seq::<(i32, i32)>::empty(),
        ),
{
    let w = seq!['['] + c + seq![']'];
    let p = a + w + b;
    let n = a.len() as int;
    let j = n + 1 + c.len();
    assert(p[n] == '[');
    assert(p[n + 1] != '!') by {
        if c.len() > 0 {
            assert(p[n + 1] == c[0]);
        } else {
            assert(p[n + 1] == ']');
        }
    }
    assert(p[j] == ']');
    assert forall|h: int| n + 1 <= h < j implies #[trigger] p[h] != '\\' && p[h] != ']' && p[h]
        != '-' by {
        assert(p[h] == c[h - n - 1]);
        assert(is_plain(c[h - n - 1]));
    }
    lemma_bracket_members(p, n + 1, j, 0);
    assert(p.subrange(n + 1, j) =~= c);
    lemma_token_between_plain(a, w, b);
}

/// Between plain text, `[!c]` matches one character not in `c`: it becomes
/// a negated regex class. (`c` here holds no `]` and no `-`.)
pub proof fn law_glob_negated_bracket(a: Seq<char>, c: Seq<char>, b: Seq<char>)
    requires
        all_plain(a),
        all_plain(c),
        all_plain(b),
        !c.contains(']'),
        !c.contains('-'),
    ensures
        pattern_regex(a + (seq!['[', '!'] + c + seq![']']) + b) == (
            escape_all(a) + (seq!['[', '^'] + escape_all(c) + seq![']']) + escape_all(b),
            Seq::<(i32, i32)>::empty(),
        ),
{
    let w = seq!['[', '!'] + c + seq![']'];
    let p = a + w + b;
    let n = a.len() as int;
    let j = n + 2 + c.len();
    assert(p[n] == '[');
    assert(p[n + 1] == '!');
    assert(p[j] == ']');
    assert forall|h: int| n + 2 <= h < j implies #[trigger] p[h] != '\\' && p[h] != ']' && p[h]
        != '-' by {
        assert(p[h] == c[h - n - 2]);
        assert(is_plain(c[h - n - 2]));
    }
    lemma_bracket_members(p, n + 2, j, 0);
    assert(p.subrange(n + 2, j) =~= c);
    lemma_token_between_plain(a, w, b);
}

/// Between plain text, `[x-y]` with letters or digits `x` and `y` matches
/// one character from `x` to `y`: it stays the regex class `[x-y]`.
pub proof fn law_glob_char_range(a: Seq<char>, x: char, y: char, b: Seq<char>)
    requires
        all_plain(a),
        all_plain(b),
        is_alnum(x),
        is_alnum(y),
    ensures
        pattern_regex(a + seq!['[', x, '-', y, ']'] + b) == (
            escape_all(a) + seq!['[', x, '-', y, ']'] + escape_all(b),
            Seq::<(i32, i32)>::empty(),
        ),
{
    let w = seq!['[', x, '-', y, ']'];
    let p = a + w + b;
    let n = a.len() as int;
    assert(p[n] == '[' && p[n + 1] == x && p[n + 2] == '-' && p[n + 3] == y && p[n + 4] == ']');
    assert(literal(x) == seq![x]);
    assert(literal(y) == seq![y]);
    let r4 = crate::glob::bracket_body(p, n + 4, false, 0);
    assert(r4 == (seq![']'], n + 5));
    let r3 = crate::glob::bracket_body(p, n + 3, false, 2);
    assert(r3 == (seq![y] + r4.0, r4.1));
    let r2 = crate::glob::bracket_body(p, n + 2, false, 1);
    assert(r2 == (seq!['-'] + r3.0, r3.1));
    let r1 = crate::glob::bracket_body(p, n + 1, false, 0);
    assert(r1 == (seq![x] + r2.0, r2.1));
    assert(seq!['['] + r1.0 =~= w);
    lemma_token_between_plain(a, w, b);
}

/// Over characters that are neither braces nor backslashes, the scan for
/// paired braces keeps its state.
proof fn lemma_paired_run(p: Seq<char>, k: int, j: int, left: int, right: int)
    requires
        0 <= k <= j <= p.len(),
        left >= right,
        forall|h: int|
            k <= h < j ==> #[trigger] p[h] != '{' && p[h] != '}' && p[h] != '\\',
    ensures
        crate::glob::paired_from(p, k, false, left, right) == crate::glob::paired_from(
            p,
            j,
            false,
            left,
            right,
        ),
    decreases j - k,
{
    if k < j {
        assert(p[k] != '{' && p[k] != '}' && p[k] != '\\');
        lemma_paired_run(p, k + 1, j, left, right);
    }
}

/// Over characters that are not a backslash, `}` or `,`, the search for
/// the `}` that closes a single item goes on.
proof fn lemma_close_run(p: Seq<char>, k: int, j: int)
    requires
        0 <= k <= j <= p.len(),
        forall|h: int| k <= h < j ==> #[trigger] p[h] != '\\' && p[h] != '}' && p[h] != ',',
    ensures
        crate::glob::close_from(p, k, false) == crate::glob::close_from(p, j, false),
    decreases j - k,
{
    if k < j {
        assert(p[k] != '\\' && p[k] != '}' && p[k] != ',');
        lemma_close_run(p, k + 1, j);
    }
}

/// A `{` whose `,` comes before any `}` opens a group.
proof fn lemma_group_opens(p: Seq<char>, n: int, c: int)
    requires
        0 <= n < c < p.len(),
        p[n] == '{',
        p[c] == ',',
        forall|h: int| n < h < c ==> is_plain(#[trigger] p[h]),
    ensures
        token(p, n, true, 0) == (seq!['(', '?', ':'], Seq::<(i32, i32)>::empty(), n + 1, 1u32),
{
    assert forall|h: int| n + 1 <= h < c implies #[trigger] p[h] != '\\' && p[h] != '}' && p[h]
        != ',' by {
        assert(is_plain(p[h]));
    }
    lemma_close_run(p, n + 1, c);
    assert(crate::glob::close_from(p, n, false) == crate::glob::close_from(p, n + 1, false));
    assert(crate::glob::close_from(p, c, false) is None);
}

/// A group `{x,y}` at `n` (its `,` at `c`, its `}` at `e`) of a pattern
/// whose braces are paired, with plain `x` and `y`: its regex is
/// `(?:x|y)`, each side escaped, then the regex of what follows.
#[verifier::spinoff_prover]
#[verifier::rlimit(30)]
proof fn lemma_group_regex(p: Seq<char>, n: int, c: int, e: int)
    requires
        0 <= n < c < e < p.len(),
        p[n] == '{',
        p[c] == ',',
        p[e] == '}',
        forall|h: int| n < h < c ==> is_plain(#[trigger] p[h]),
        forall|h: int| c < h < e ==> is_plain(#[trigger] p[h]),
    ensures
        ({
            let rest = regex_from(p, e + 1, true, 0);
            regex_from(p, n, true, 0) == (
                seq!['(', '?', ':'] + escape_all(p.subrange(n + 1, c)) + seq!['|'] + escape_all(
                    p.subrange(c + 1, e),
                ) + seq![')'] + rest.0,
                rest.1,
            )
        }),
{
    lemma_group_opens(p, n, c);
    lemma_regex_step(p, n, true, 0);
    lemma_plain_run(p, n + 1, c, true, 1);
    lemma_regex_step(p, c, true, 1);
    lemma_plain_run(p, c + 1, e, true, 1);
    lemma_regex_step(p, e, true, 1);
    let rest = regex_from(p, e + 1, true, 0);
    let none = Seq::<(i32, i32)>::empty();
    assert(none + (none + (none + rest.1)) =~= rest.1);
    assert(seq!['(', '?', ':'] + (escape_all(p.subrange(n + 1, c)) + (seq!['|'] + (escape_all(
        p.subrange(c + 1, e),
    ) + (seq![')'] + rest.0)))) =~= seq!['(', '?', ':'] + escape_all(p.subrange(n + 1, c))
        + seq!['|'] + escape_all(p.subrange(c + 1, e)) + seq![')'] + rest.0);
}

/// Between plain text, `{x,y}` with plain `x` and `y` matches either: it
/// becomes the group `(?:x|y)`, each side escaped.
#[verifier::spinoff_prover]
#[verifier::rlimit(30)]
pub proof fn law_glob_alternatives(a: Seq<char>, x: Seq<char>, y: Seq<char>, b: Seq<char>)
    requires
        all_plain(a),
        all_plain(x),
        all_plain(y),
        all_plain(b),
    ensures
        pattern_regex(a + (seq!['{'] + x + seq![','] + y + seq!['}']) + b) == (
            escape_all(a) + (seq!['(', '?', ':'] + escape_all(x) + seq!['|'] + escape_all(y)
                + seq![')']) + escape_all(b),
            Seq::<(i32, i32)>::empty(),
        ),
{
    let w = seq!['{'] + x + seq![','] + y + seq!['}'];
    let p = a + w + b;
    let n = a.len() as int;
    let c = n + 1 + x.len();
    let e = c + 1 + y.len();
    let m = e + 1;
    assert(p.len() == m + b.len());
    assert(p[n] == '{' && p[c] == ',' && p[e] == '}');
    assert(crate::glob::braces_paired(p)) by {
        let inner = x + seq![','] + y;
        assert(w =~= seq!['{'] + inner + seq!['}']);
        assert forall|h: int| 0 <= h < inner.len() implies #[trigger] inner[h] != '{' && inner[h]
            != '}' && inner[h] != '\\' by {
            if h < x.len() {
                assert(inner[h] == x[h]);
                assert(is_plain(x[h]));
            } else if h > x.len() {
                assert(inner[h] == y[h - x.len() - 1]);
                assert(is_plain(y[h - x.len() - 1]));
            }
        }
        lemma_braces_paired_around(a, inner, b);
    }
    assert forall|h: int| 0 <= h < n implies is_plain(#[trigger] p[h]) by {
        assert(p[h] == a[h]);
    }
    assert forall|h: int| n < h < c implies is_plain(#[trigger] p[h]) by {
        assert(p[h] == x[h - n - 1]);
    }
    assert forall|h: int| c < h < e implies is_plain(#[trigger] p[h]) by {
        assert(p[h] == y[h - c - 1]);
    }
    assert forall|h: int| m <= h < p.len() implies is_plain(#[trigger] p[h]) by {
        assert(p[h] == b[h - m]);
    }
    lemma_plain_run(p, 0, n, true, 0);
    lemma_group_regex(p, n, c, e);
    lemma_plain_tail(p, m, true, 0);
    assert(p.subrange(0, n) =~= a);
    assert(p.subrange(n + 1, c) =~= x);
    assert(p.subrange(c + 1, e) =~= y);
    assert(p.skip(m) =~= b);
    let g = seq!['(', '?', ':'] + escape_all(x) + seq!['|'] + escape_all(y) + seq![')'];
    assert(escape_all(a) + (g + escape_all(b)) =~= escape_all(a) + g + escape_all(b));
}

/// The text of a number holds only digits and `-`.
proof fn lemma_decimal_chars(n: int)
    ensures
        decimal(n).len() > 0,
        forall|h: int|
            0 <= h < decimal(n).len() ==> is_digit(#[trigger] decimal(n)[h]) || decimal(n)[h]
                == '-',
{
    if n < 0 {
        let d = decimal_digits((-n) as nat);
        lemma_decimal_digits((-n) as nat);
        assert forall|h: int| 0 <= h < decimal(n).len() implies is_digit(
            #[trigger] decimal(n)[h],
        ) || decimal(n)[h] == '-' by {
            if h > 0 {
                assert(decimal(n)[h] == d[h - 1]);
            }
        }
    } else {
        lemma_decimal_digits(n as nat);
    }
}

/// The first `..` of `s` from `k` is at `d` when none starts before.
proof fn lemma_find_dots_at(s: Seq<char>, k: int, d: int)
    requires
        0 <= k <= d,
        d + 1 < s.len(),
        s[d] == '.',
        s[d + 1] == '.',
        forall|h: int| k <= h < d ==> #[trigger] s[h] != '.',
    ensures
        crate::glob::find_dots(s, k) == Some(d),
    decreases d - k,
{
    if k < d {
        assert(s[k] != '.');
        lemma_find_dots_at(s, k + 1, d);
    }
}

/// Braces around text without braces or backslashes, between plain text,
/// are paired.
#[verifier::spinoff_prover]
#[verifier::rlimit(30)]
proof fn lemma_braces_paired_around(a: Seq<char>, inner: Seq<char>, b: Seq<char>)
    requires
        all_plain(a),
        all_plain(b),
        forall|h: int|
            0 <= h < inner.len() ==> #[trigger] inner[h] != '{' && inner[h] != '}' && inner[h]
                != '\\',
    ensures
        crate::glob::braces_paired(a + (seq!['{'] + inner + seq!['}']) + b),
{
    let p = a + (seq!['{'] + inner + seq!['}']) + b;
    let n = a.len() as int;
    let e = n + 1 + inner.len();
    let m = e + 1;
    assert(p.len() == m + b.len());
    assert(p[n] == '{' && p[e] == '}');
    assert forall|h: int| 0 <= h < n implies #[trigger] p[h] != '{' && p[h] != '}' && p[h]
        != '\\' by {
        assert(p[h] == a[h]);
        assert(is_plain(a[h]));
    }
    assert forall|h: int| n + 1 <= h < e implies #[trigger] p[h] != '{' && p[h] != '}' && p[h]
        != '\\' by {
        assert(p[h] == inner[h - n - 1]);
    }
    assert forall|h: int| m <= h < p.len() implies #[trigger] p[h] != '{' && p[h] != '}' && p[h]
        != '\\' by {
        assert(p[h] == b[h - m]);
        assert(is_plain(b[h - m]));
    }
    lemma_paired_run(p, 0, n, 0, 0);
    lemma_paired_run(p, n + 1, e, 1, 0);
    lemma_paired_run(p, m, p.len() as int, 1, 1);
    assert(crate::glob::paired_from(p, n, false, 0, 0) == crate::glob::paired_from(
        p,
        n + 1,
        false,
        1,
        0,
    ));
    assert(crate::glob::paired_from(p, e, false, 1, 0) == crate::glob::paired_from(
        p,
        m,
        false,
        1,
        1,
    ));
}

/// Scanning from a `{` whose text holds no backslash, `}` or `,`, the
/// first of these is the `}` right after the text.
proof fn lemma_single_item(a: Seq<char>, inner: Seq<char>, b: Seq<char>)
    requires
        forall|h: int|
            0 <= h < inner.len() ==> #[trigger] inner[h] != '}' && inner[h] != '\\' && inner[h]
                != ',',
    ensures
        crate::glob::close_from(a + (seq!['{'] + inner + seq!['}']) + b, a.len() as int, false)
            == Some(a.len() + 1 + inner.len() as int),
{
    let p = a + (seq!['{'] + inner + seq!['}']) + b;
    let n = a.len() as int;
    let e = n + 1 + inner.len();
    assert(p[n] == '{' && p[e] == '}');
    assert forall|h: int| n + 1 <= h < e implies #[trigger] p[h] != '\\' && p[h] != '}' && p[h]
        != ',' by {
        assert(p[h] == inner[h - n - 1]);
    }
    lemma_close_run(p, n + 1, e);
    assert(crate::glob::close_from(p, n, false) == crate::glob::close_from(p, n + 1, false));
}

/// `{lo..hi}` written with two whole numbers is the numeric range
/// `(lo, hi)`.
proof fn lemma_brace_range_decimal(lo: i32, hi: i32)
    ensures
        crate::glob::brace_range(
            seq!['{'] + (decimal(lo as int) + seq!['.', '.'] + decimal(hi as int)) + seq!['}'],
        ) == Some((lo, hi)),
{
    let dl = decimal(lo as int);
    let dh = decimal(hi as int);
    let inner = dl + seq!['.', '.'] + dh;
    let w = seq!['{'] + inner + seq!['}'];
    lemma_decimal_chars(lo as int);
    assert(w.subrange(1, w.len() - 1) =~= inner);
    assert forall|h: int| 0 <= h < dl.len() implies #[trigger] inner[h] != '.' by {
        assert(inner[h] == dl[h]);
    }
    lemma_find_dots_at(inner, 0, dl.len() as int);
    assert(inner.take(dl.len() as int) =~= dl);
    assert(inner.skip(dl.len() as int + 2) =~= dh);
    lemma_parse_decimal(lo);
    lemma_parse_decimal(hi);
}

/// Between plain text, `{lo..hi}` written with two whole numbers matches
/// an optionally signed number, which it captures, and records the range
/// `(lo, hi)` that the captured number is checked against.
#[verifier::spinoff_prover]
#[verifier::rlimit(30)]
pub proof fn law_glob_numeric_range(a: Seq<char>, lo: i32, hi: i32, b: Seq<char>)
    requires
        all_plain(a),
        all_plain(b),
    ensures
        pattern_regex(
            a + (seq!['{'] + (decimal(lo as int) + seq!['.', '.'] + decimal(hi as int)) + seq![
                '}',
            ]) + b,
        ) == (
            escape_all(a) + seq!['(', '[', '\\', '+', '\\', '-', ']', '?', '\\', 'd', '+', ')']
                + escape_all(b),
            seq![(lo, hi)],
        ),
{
    let dl = decimal(lo as int);
    let dh = decimal(hi as int);
    let inner = dl + seq!['.', '.'] + dh;
    let w = seq!['{'] + inner + seq!['}'];
    let p = a + w + b;
    let n = a.len() as int;
    lemma_decimal_chars(lo as int);
    lemma_decimal_chars(hi as int);
    assert forall|h: int| 0 <= h < inner.len() implies #[trigger] inner[h] != '{' && inner[h]
        != '}' && inner[h] != '\\' && inner[h] != ',' by {
        if h < dl.len() {
            assert(inner[h] == dl[h]);
        } else if h >= dl.len() + 2 {
            assert(inner[h] == dh[h - dl.len() - 2]);
        }
    }
    lemma_braces_paired_around(a, inner, b);
    lemma_single_item(a, inner, b);
    let e = n + 1 + inner.len();
    assert(p.subrange(n, e + 1) =~= w);
    lemma_brace_range_decimal(lo, hi);
    assert(p[n] == '{');
    lemma_token_between_plain(a, w, b);
}

/// A numeric range `{lo..hi}` must run upwards: the glob is refused as an
/// invalid range exactly when `hi <= lo` (the directory being acceptable).
pub proof fn law_glob_range_must_ascend(
    dir: Seq<char>,
    a: Seq<char>,
    lo: i32,
    hi: i32,
    b: Seq<char>,
)
    requires
        all_plain(a),
        all_plain(b),
        !(dir.len() > 0 && dir.last() == '/' && !is_root_dir(dir)),
    ensures
        glob_outcome(
            dir,
            a + (seq!['{'] + (decimal(lo as int) + seq!['.', '.'] + decimal(hi as int)) + seq![
                '}',
            ]) + b,
        ) == Err::<(Seq<char>, Seq<(i32, i32)>), crate::glob::GlobError>(
            crate::glob::GlobError::InvalidRange,
        ) <==> hi <= lo,
{
    law_glob_numeric_range(a, lo, hi, b);
    let r = seq![(lo, hi)];
    assert(crate::glob::ranges_ascending(r) <==> lo < hi) by {
        if !(lo < hi) {
            assert(!(r[0].0 < r[0].1));
        }
    }
}

/// A `key = value` line: not a comment, not a section header, with a key.
pub open spec fn is_pair_line(raw: Seq<char>) -> bool {
    let l = trim(raw);
    !is_comment(l) && section_of(l) is None && pair_of(l) is Some
}

/// The first index of `'='` in `k + "=" + v`, where `k` holds none, is
/// the one right after `k`.
proof fn lemma_first_equals(k: Seq<char>, v: Seq<char>, j: int)
    requires
        0 <= j <= k.len(),
        !k.contains('='),
    ensures
        crate::rules::index_of_from(k + seq!['='] + v, '=', j) == Some(k.len() as int),
    decreases k.len() - j,
{
    let l = k + seq!['='] + v;
    if j < k.len() {
        assert(l[j] == k[j]);
        lemma_first_equals(k, v, j + 1);
    } else {
        assert(l[j] == '=');
    }
}

/// A line is split into key and value at its first `=`, both trimmed: the
/// value may hold more `=`, the key holds none.
pub proof fn law_pair_split_at_first_equals(k: Seq<char>, v: Seq<char>)
    requires
        !k.contains('='),
        trim(k).len() > 0,
    ensures
        pair_of(k + seq!['='] + v) == Some((trim(k), trim(v))),
{
    let l = k + seq!['='] + v;
    lemma_first_equals(k, v, 0);
    assert(l.take(k.len() as int) =~= k);
    assert(l.skip(k.len() as int + 1) =~= v);
}

/// A line `[g]` is the header of a section with glob `g`.
pub proof fn law_section_header(g: Seq<char>)
    ensures
        section_of(seq!['['] + g + seq![']']) == Some(g),
{
    let l = seq!['['] + g + seq![']'];
    assert(l.subrange(1, l.len() - 1) =~= g);
}

/// In a section that matches, a `key = value` line sets the lower-cased
/// key; the value is kept as written unless the key is one of the supported
/// properties, whose values are lower-cased.
pub proof fn law_pair_sets_key(m: PropertyMap, raw: Seq<char>, file_path: Seq<char>, dir: Seq<char>)
    requires
        is_pair_line(raw),
    ensures
        ({
            let kv = pair_of(trim(raw)).unwrap();
            let k = lowered(kv.0);
            line_step(m, Some(true), raw, file_path, dir, PairRule::LowercaseSupported) == Ok::<
                (PropertyMap, Option<bool>),
                crate::rules::Stop,
            >(
                (
                    m.insert(
                        k,
                        if is_supported_key(k) {
                            lowered(kv.1)
                        } else {
                            kv.1
                        },
                    ),
                    Some(true),
                ),
            )
        }),
{
}

/// Under `LowercaseSupported`, the rule of `properties`, a `key = value`
/// line of a matching section sets the lower-cased key to the lower case of
/// the value for `end_of_line`, `indent_style`, `indent_size`, `tab_width`,
/// `insert_final_newline`, `trim_trailing_whitespace` and `charset`, and to
/// the value as written for every other key.
pub proof fn law_supported_values_lowercased(
    m: PropertyMap,
    raw: Seq<char>,
    file_path: Seq<char>,
    dir: Seq<char>,
)
    requires
        is_pair_line(raw),
    ensures
        ({
            let kv = pair_of(trim(raw)).unwrap();
            let k = lowered(kv.0);
            let supported = k == "end_of_line"@ || k == "indent_style"@ || k == "indent_size"@ || k
                == "tab_width"@ || k == "insert_final_newline"@ || k == "trim_trailing_whitespace"@
                || k == "charset"@;
            line_step(m, Some(true), raw, file_path, dir, PairRule::LowercaseSupported) == Ok::<
                (PropertyMap, Option<bool>),
                crate::rules::Stop,
            >((m.insert(k, if supported { lowered(kv.1) } else { kv.1 }), Some(true)))
        }),
{
}

/// With `unset` recognized, a `key = unset` line (in any ASCII case) of a
/// section that matches removes the lower-cased key.
pub proof fn law_unset_removes_key(
    m: PropertyMap,
    raw: Seq<char>,
    file_path: Seq<char>,
    dir: Seq<char>,
)
    requires
        is_pair_line(raw),
        eq_ignore_ascii_case(pair_of(trim(raw)).unwrap().1, "unset"@),
    ensures
        line_step(
            m,
            Some(true),
            raw,
            file_path,
            dir,
            PairRule::LowercaseAll { allow_unset: true },
        ) == Ok::<(PropertyMap, Option<bool>), crate::rules::Stop>(
            (m.remove(lowered(pair_of(trim(raw)).unwrap().0)), Some(true)),
        ),
{
}

/// Before the first section, a `root = true` line (keys and values in any
/// ASCII case) discards the properties gathered so far, and any other
/// `key = value` line changes nothing.
pub proof fn law_preamble_pairs(
    m: PropertyMap,
    raw: Seq<char>,
    file_path: Seq<char>,
    dir: Seq<char>,
    rule: PairRule,
)
    requires
        is_pair_line(raw),
    ensures
        line_step(m, None, raw, file_path, dir, rule) == Ok::<
            (PropertyMap, Option<bool>),
            crate::rules::Stop,
        >(
            (
                if is_root_line(raw) {
                    Map::<Seq<char>, Seq<char>>::empty()
                } else {
                    m
                },
                None,
            ),
        ),
{
}

/// In a section that does not match, a `key = value` line changes nothing.
pub proof fn law_unmatched_section_ignored(
    m: PropertyMap,
    raw: Seq<char>,
    file_path: Seq<char>,
    dir: Seq<char>,
    rule: PairRule,
)
    requires
        is_pair_line(raw),
    ensures
        line_step(m, Some(false), raw, file_path, dir, rule) == Ok::<
            (PropertyMap, Option<bool>),
            crate::rules::Stop,
        >((m, Some(false))),
{
}

/// Comment lines, whose first character that is not blank is `#` or `;`,
/// and blank lines change neither the properties nor the section state.
pub proof fn law_comments_and_blanks_ignored(
    m: PropertyMap,
    section: Option<bool>,
    raw: Seq<char>,
    file_path: Seq<char>,
    dir: Seq<char>,
    rule: PairRule,
)
    requires
        trim(raw).len() == 0 || trim(raw)[0] == '#' || trim(raw)[0] == ';',
    ensures
        line_step(m, section, raw, file_path, dir, rule) == Ok::<
            (PropertyMap, Option<bool>),
            crate::rules::Stop,
        >((m, section)),
{
    if !is_comment(trim(raw)) {
        assert(crate::rules::index_of_from(trim(raw), '=', 0) is None);
    }
}


/// Of two pairs with the same key, the later one decides: the earlier one
/// leaves no trace.
pub proof fn law_later_pair_wins(
    m: PropertyMap,
    key: Seq<char>,
    first: Seq<char>,
    second: Seq<char>,
    rule: PairRule,
)
    ensures
        apply_pair(apply_pair(m, key, first, rule), key, second, rule) == apply_pair(
            m,
            key,
            second,
            rule,
        ),
{
    assert(apply_pair(apply_pair(m, key, first, rule), key, second, rule) =~= apply_pair(
        m,
        key,
        second,
        rule,
    ));
}


/// Every value is the lower case of a value that is not `unset` in any ASCII
/// case.
pub open spec fn values_not_unset(m: PropertyMap) -> bool {
    forall|k: Seq<char>|
        #[trigger] m.contains_key(k) ==> exists|w: Seq<char>|
            m[k] == lowered(w) && !eq_ignore_ascii_case(w, "unset"@)
}

proof fn lemma_lines_keep_not_unset(
    m0: PropertyMap,
    lines: Seq<Seq<char>>,
    n: int,
    file_path: Seq<char>,
    dir: Seq<char>,
)
    requires
        values_not_unset(m0),
    ensures
        lines_outcome(m0, lines, n, file_path, dir, PairRule::LowercaseAll { allow_unset: true })
            matches Ok(st) ==> values_not_unset(st.0),
    decreases n,
{
    let rule = PairRule::LowercaseAll { allow_unset: true };
    if n > 0 {
        lemma_lines_keep_not_unset(m0, lines, n - 1, file_path, dir);
        match lines_outcome(m0, lines, n - 1, file_path, dir, rule) {
            Ok(st) => {
                let l = trim(lines[n - 1]);
                match pair_of(l) {
                    Some(kv) => {
                        let m2 = apply_pair(st.0, kv.0, kv.1, rule);
                        assert forall|k: Seq<char>| #[trigger] m2.contains_key(k) implies exists|
                            w: Seq<char>,
                        | m2[k] == lowered(w) && !eq_ignore_ascii_case(w, "unset"@) by {
                            if k == lowered(kv.0) && !eq_ignore_ascii_case(kv.1, "unset"@) {
                                assert(m2[k] == lowered(kv.1));
                            } else {
                                assert(st.0.contains_key(k));
                                assert(m2[k] == st.0[k]);
                            }
                        }
                    },
                    None => {},
                }
            },
            Err(_) => {},
        }
    }
}

proof fn lemma_files_keep_not_unset(files: Seq<FileView>, n: int, file_path: Seq<char>)
    ensures
        files_outcome(files, n, file_path, PairRule::LowercaseAll { allow_unset: true }) matches Ok(
            m,
        ) ==> values_not_unset(m),
    decreases n,
{
    let rule = PairRule::LowercaseAll { allow_unset: true };
    if n > 0 {
        lemma_files_keep_not_unset(files, n - 1, file_path);
        match files_outcome(files, n - 1, file_path, rule) {
            Ok(m) => {
                let f = files[n - 1];
                lemma_lines_keep_not_unset(m, f.lines, f.lines.len() as int, file_path, f.dir);
            },
            Err(_) => {},
        }
    } else {
        assert(values_not_unset(Map::<Seq<char>, Seq<char>>::empty()));
    }
}

/// With `unset` recognized, the properties keep no value given as `unset`:
/// each value is the lower case of a value that is not `unset` in any ASCII
/// case, or the `tab` that the version adjustment writes.
pub proof fn law_unset_values_discarded(file_path: Seq<char>, files: Seq<FileView>, version: Version)
    ensures
        outcome(file_path, files, version, PairRule::LowercaseAll { allow_unset: true }) matches Ok(
            m,
        ) ==> forall|k: Seq<char>|
            #[trigger] m.contains_key(k) ==> m[k] == "tab"@ || exists|w: Seq<char>|
                m[k] == lowered(w) && !eq_ignore_ascii_case(w, "unset"@),
{
    let rule = PairRule::LowercaseAll { allow_unset: true };
    lemma_files_keep_not_unset(files, files.len() as int, file_path);
    match files_outcome(files, files.len() as int, file_path, rule) {
        Ok(m) => {
            lemma_process_keys_distinct();
            let r = process(m, version);
            assert forall|k: Seq<char>| #[trigger] r.contains_key(k) implies r[k] == "tab"@
                || exists|w: Seq<char>|
                r[k] == lowered(w) && !eq_ignore_ascii_case(w, "unset"@) by {
                if r[k] != "tab"@ {
                    let at_least = !version.spec_lt(crate::version::spec_v0_9_0());
                    if k == "tab_width"@ && !m.contains_key(k) {
                        assert(m.contains_key("indent_size"@));
                    } else if k == "indent_size"@ && at_least && m.contains_key("tab_width"@) && (
                    m.contains_key("indent_size"@) ==> m["indent_size"@] == "tab"@) {
                        assert(m.contains_key("tab_width"@));
                    } else {
                        assert(m.contains_key(k));
                    }
                }
            }
        },
        Err(_) => {},
    }
}


// ----------------------------------------------------------------------------
// ASCII files
// ----------------------------------------------------------------------------

/// Every line of every file is ASCII.
pub open spec fn files_ascii(files: Seq<FileView>) -> bool {
    forall|i: int, j: int|
        0 <= i < files.len() && 0 <= j < files[i].lines.len() ==> all_ascii(
            #[trigger] files[i].lines[j],
        )
}

proof fn lemma_trim_start_ascii(s: Seq<char>)
    requires
        all_ascii(s),
    ensures
        all_ascii(trim_start(s)),
    decreases s.len(),
{
    if s.len() > 0 && crate::text::is_whitespace(s[0]) {
        assert forall|i: int| 0 <= i < s.drop_first().len() implies (#[trigger] s.drop_first()[i]
            as u32) < 128 by {
            assert(s.drop_first()[i] == s[i + 1]);
        }
        lemma_trim_start_ascii(s.drop_first());
    }
}

proof fn lemma_trim_end_ascii(s: Seq<char>)
    requires
        all_ascii(s),
    ensures
        all_ascii(trim_end(s)),
    decreases s.len(),
{
    if s.len() > 0 && crate::text::is_whitespace(s.last()) {
        assert forall|i: int| 0 <= i < s.drop_last().len() implies (#[trigger] s.drop_last()[i]
            as u32) < 128 by {
            assert(s.drop_last()[i] == s[i]);
        }
        lemma_trim_end_ascii(s.drop_last());
    }
}

proof fn lemma_trim_ascii(s: Seq<char>)
    requires
        all_ascii(s),
    ensures
        all_ascii(trim(s)),
{
    lemma_trim_start_ascii(s);
    lemma_trim_end_ascii(trim_start(s));
}

/// The key and value of an ASCII line are ASCII.
proof fn lemma_pair_ascii(raw: Seq<char>)
    requires
        all_ascii(raw),
    ensures
        pair_of(trim(raw)) matches Some(kv) ==> all_ascii(kv.0) && all_ascii(kv.1),
{
    let l = trim(raw);
    lemma_trim_ascii(raw);
    lemma_index_of_from_bounds(l, '=', 0);
    match crate::rules::index_of_from(l, '=', 0) {
        Some(i) => {
            if 0 <= i < l.len() {
                assert forall|j: int| 0 <= j < l.take(i).len() implies (#[trigger] l.take(i)[j]
                    as u32) < 128 by {
                    assert(l.take(i)[j] == l[j]);
                }
                assert forall|j: int| 0 <= j < l.skip(i + 1).len() implies (#[trigger] l.skip(
                    i + 1,
                )[j] as u32) < 128 by {
                    assert(l.skip(i + 1)[j] == l[i + 1 + j]);
                }
                lemma_trim_ascii(l.take(i));
                lemma_trim_ascii(l.skip(i + 1));
            }
        },
        None => {},
    }
}

proof fn lemma_index_of_from_bounds(s: Seq<char>, c: char, k: int)
    requires
        0 <= k,
    ensures
        crate::rules::index_of_from(s, c, k) matches Some(i) ==> k <= i < s.len(),
    decreases s.len() - k,
{
    if k < s.len() {
        lemma_index_of_from_bounds(s, c, k + 1);
    }
}

proof fn lemma_ascii_lower_idempotent(c: char)
    ensures
        ascii_lower(ascii_lower(c)) == ascii_lower(c),
        (c as u32) < 128 ==> (ascii_lower(c) as u32) < 128,
{
    if 'A' <= c && c <= 'Z' {
        assert(('A' as u32) == 65);
        assert(('Z' as u32) == 90);
        assert(('a' as u32) == 97);
        let d = ((c as u32) + 32) as char;
        assert((d as u32) == (c as u32) + 32);
    }
}

/// Lower-casing ASCII text twice gives what doing it once gives, and stays
/// ASCII.
proof fn lemma_ascii_lowercase_idempotent(s: Seq<char>)
    ensures
        ascii_lowercase(ascii_lowercase(s)) == ascii_lowercase(s),
        all_ascii(s) ==> all_ascii(ascii_lowercase(s)),
{
    assert forall|i: int| 0 <= i < s.len() implies #[trigger] ascii_lowercase(ascii_lowercase(s))[i]
        == ascii_lowercase(s)[i] by {
        lemma_ascii_lower_idempotent(s[i]);
    }
    assert(ascii_lowercase(ascii_lowercase(s)) =~= ascii_lowercase(s));
    if all_ascii(s) {
        assert forall|i: int| 0 <= i < ascii_lowercase(s).len() implies (
        #[trigger] ascii_lowercase(s)[i] as u32) < 128 by {
            lemma_ascii_lower_idempotent(s[i]);
        }
    }
}

/// Lower-casing ASCII letters does not change equality ignoring ASCII case.
proof fn lemma_eq_ignore_case_lowered(w: Seq<char>, x: Seq<char>)
    ensures
        eq_ignore_ascii_case(ascii_lowercase(w), x) == eq_ignore_ascii_case(w, x),
{
    assert forall|i: int| 0 <= i < w.len() implies ascii_lower(#[trigger] ascii_lowercase(w)[i])
        == ascii_lower(w[i]) by {
        lemma_ascii_lower_idempotent(w[i]);
    }
    if eq_ignore_ascii_case(w, x) {
        assert forall|i: int| 0 <= i < ascii_lowercase(w).len() implies ascii_lower(
            #[trigger] ascii_lowercase(w)[i],
        ) == ascii_lower(x[i]) by {
            assert(ascii_lower(w[i]) == ascii_lower(x[i]));
        }
    }
    if eq_ignore_ascii_case(ascii_lowercase(w), x) {
        assert forall|i: int| 0 <= i < w.len() implies ascii_lower(#[trigger] w[i]) == ascii_lower(
            x[i],
        ) by {
            assert(ascii_lower(ascii_lowercase(w)[i]) == ascii_lower(x[i]));
        }
    }
}

/// The keys and values the version adjustment writes are lower-case ASCII.
proof fn lemma_literals_lower_ascii()
    ensures
        ascii_lowercase("indent_size"@) == "indent_size"@,
        ascii_lowercase("tab_width"@) == "tab_width"@,
        all_ascii("tab"@),
        !eq_ignore_ascii_case("tab"@, "unset"@),
{
    reveal_strlit("indent_size");
    reveal_strlit("tab_width");
    reveal_strlit("tab");
    reveal_strlit("unset");
    assert(ascii_lowercase("indent_size"@) =~= "indent_size"@);
    assert(ascii_lowercase("tab_width"@) =~= "tab_width"@);
}

/// Every key is its own ASCII lower case.
pub open spec fn keys_ascii_lower(m: PropertyMap) -> bool {
    forall|k: Seq<char>| #[trigger] m.contains_key(k) ==> ascii_lowercase(k) == k
}

/// Every value is ASCII and not `unset` in any ASCII case.
pub open spec fn values_ascii_set(m: PropertyMap) -> bool {
    forall|k: Seq<char>|
        #[trigger] m.contains_key(k) ==> all_ascii(m[k]) && !eq_ignore_ascii_case(m[k], "unset"@)
}

proof fn lemma_lines_ascii(
    m0: PropertyMap,
    lines: Seq<Seq<char>>,
    n: int,
    file_path: Seq<char>,
    dir: Seq<char>,
    rule: PairRule,
)
    requires
        n <= lines.len(),
        forall|j: int| 0 <= j < lines.len() ==> all_ascii(#[trigger] lines[j]),
        keys_ascii_lower(m0),
        rule == (PairRule::LowercaseAll { allow_unset: true }) ==> values_ascii_set(m0),
    ensures
        lines_outcome(m0, lines, n, file_path, dir, rule) matches Ok(st) ==> keys_ascii_lower(st.0)
            && (rule == (PairRule::LowercaseAll { allow_unset: true }) ==> values_ascii_set(st.0)),
    decreases n,
{
    if n > 0 {
        lemma_lines_ascii(m0, lines, n - 1, file_path, dir, rule);
        match lines_outcome(m0, lines, n - 1, file_path, dir, rule) {
            Ok(st) => {
                let l = trim(lines[n - 1]);
                lemma_pair_ascii(lines[n - 1]);
                match pair_of(l) {
                    Some(kv) => {
                        let m2 = apply_pair(st.0, kv.0, kv.1, rule);
                        lemma_ascii_lowercase_idempotent(kv.0);
                        lemma_ascii_lowercase_idempotent(kv.1);
                        lemma_eq_ignore_case_lowered(kv.1, "unset"@);
                        assert forall|k: Seq<char>| #[trigger] m2.contains_key(k) implies ascii_lowercase(
                            k,
                        ) == k by {
                            if k != lowered(kv.0) {
                                assert(st.0.contains_key(k));
                            }
                        }
                        if rule == (PairRule::LowercaseAll { allow_unset: true }) {
                            assert forall|k: Seq<char>| #[trigger] m2.contains_key(k) implies all_ascii(
                                m2[k],
                            ) && !eq_ignore_ascii_case(m2[k], "unset"@) by {
                                if k != lowered(kv.0) {
                                    assert(st.0.contains_key(k));
                                }
                            }
                        }
                    },
                    None => {},
                }
            },
            Err(_) => {},
        }
    }
}

proof fn lemma_files_ascii(files: Seq<FileView>, n: int, file_path: Seq<char>, rule: PairRule)
    requires
        n <= files.len(),
        files_ascii(files),
    ensures
        files_outcome(files, n, file_path, rule) matches Ok(m) ==> keys_ascii_lower(m) && (rule == (
        PairRule::LowercaseAll { allow_unset: true }) ==> values_ascii_set(m)),
    decreases n,
{
    if n > 0 {
        lemma_files_ascii(files, n - 1, file_path, rule);
        match files_outcome(files, n - 1, file_path, rule) {
            Ok(m) => {
                let f = files[n - 1];
                assert forall|j: int| 0 <= j < f.lines.len() implies all_ascii(#[trigger] f.lines[j]) by {
                    assert(all_ascii(files[n - 1].lines[j]));
                }
                lemma_lines_ascii(m, f.lines, f.lines.len() as int, file_path, f.dir, rule);
            },
            Err(_) => {},
        }
    }
}

/// For ASCII EditorConfig files, every key of the properties is its own
/// lower case: `str::to_lowercase` lower-cases each ASCII letter.
pub proof fn law_ascii_keys_lowercase(
    file_path: Seq<char>,
    files: Seq<FileView>,
    version: Version,
    rule: PairRule,
)
    requires
        files_ascii(files),
    ensures
        outcome(file_path, files, version, rule) matches Ok(m) ==> forall|k: Seq<char>|
            #[trigger] m.contains_key(k) ==> ascii_lowercase(k) == k,
{
    lemma_files_ascii(files, files.len() as int, file_path, rule);
    lemma_literals_lower_ascii();
    lemma_process_keys_distinct();
    match files_outcome(files, files.len() as int, file_path, rule) {
        Ok(m) => {
            let r = finish(process(m, version), rule);
            assert forall|k: Seq<char>| #[trigger] r.contains_key(k) implies ascii_lowercase(k) == k by {
                if k != "indent_size"@ && k != "tab_width"@ {
                    assert(m.contains_key(k));
                }
            }
        },
        Err(_) => {},
    }
}

/// With `unset` recognized (as `Properties::new` does), ASCII EditorConfig
/// files leave no value that is `unset` in any ASCII case.
pub proof fn law_ascii_unset_values_discarded(
    file_path: Seq<char>,
    files: Seq<FileView>,
    version: Version,
)
    requires
        files_ascii(files),
    ensures
        outcome(file_path, files, version, PairRule::LowercaseAll { allow_unset: true }) matches Ok(
            m,
        ) ==> forall|k: Seq<char>|
            #[trigger] m.contains_key(k) ==> !eq_ignore_ascii_case(m[k], "unset"@),
{
    let rule = PairRule::LowercaseAll { allow_unset: true };
    lemma_files_ascii(files, files.len() as int, file_path, rule);
    lemma_literals_lower_ascii();
    lemma_process_keys_distinct();
    match files_outcome(files, files.len() as int, file_path, rule) {
        Ok(m) => {
            let r = process(m, version);
            assert forall|k: Seq<char>| #[trigger] r.contains_key(k) implies !eq_ignore_ascii_case(
                r[k],
                "unset"@,
            ) by {
                if r[k] != "tab"@ {
                    let at_least = !version.spec_lt(crate::version::spec_v0_9_0());
                    if k == "tab_width"@ && !m.contains_key(k) {
                        assert(m.contains_key("indent_size"@));
                    } else if k == "indent_size"@ && at_least && m.contains_key("tab_width"@) && (
                    m.contains_key("indent_size"@) ==> m["indent_size"@] == "tab"@) {
                        assert(m.contains_key("tab_width"@));
                    } else {
                        assert(m.contains_key(k));
                    }
                }
            }
        },
        Err(_) => {},
    }
}

// ----------------------------------------------------------------------------
// Numeric ranges
// ----------------------------------------------------------------------------

/// The ASCII digit for `d`, where `0 <= d < 10`.
pub open spec fn digit_char(d: int) -> char {
    (d + '0' as int) as char
}

/// The decimal digits of `n`, without leading zeros.
pub open spec fn decimal_digits(n: nat) -> Seq<char>
    decreases n,
{
    if n < 10 {
        seq![digit_char(n as int)]
    } else {
        decimal_digits(n / 10).push(digit_char((n % 10) as int))
    }
}

/// The decimal text of `n`, with a `-` before a negative number.
pub open spec fn decimal(n: int) -> Seq<char> {
    if n < 0 {
        seq!['-'] + decimal_digits((-n) as nat)
    } else {
        decimal_digits(n as nat)
    }
}

proof fn lemma_digit_char(d: int)
    requires
        0 <= d < 10,
    ensures
        digit_char(d) as int - '0' as int == d,
        is_digit(digit_char(d)),
{
    assert(('0' as int) == 48);
}

proof fn lemma_decimal_digits(n: nat)
    ensures
        decimal_digits(n).len() > 0,
        all_digits(decimal_digits(n)),
        digits_value(decimal_digits(n)) == n,
    decreases n,
{
    let s = decimal_digits(n);
    lemma_digit_char((n % 10) as int);
    if n < 10 {
        assert(s.drop_last() =~= Seq::<char>::empty());
        assert(digits_value(s.drop_last()) == 0);
    } else {
        lemma_decimal_digits(n / 10);
        let t = decimal_digits(n / 10);
        assert(s.drop_last() =~= t);
        assert forall|i: int| 0 <= i < s.len() implies is_digit(#[trigger] s[i]) by {
            if i < t.len() {
                assert(s[i] == t[i]);
            }
        }
    }
}

/// The decimal text of an `i32` parses back to it.
proof fn lemma_parse_decimal(n: i32)
    ensures
        parse_i32_spec(decimal(n as int)) == Some(n),
{
    if n < 0 {
        let d = decimal_digits((-n) as nat);
        lemma_decimal_digits((-n) as nat);
        assert((seq!['-'] + d).drop_first() =~= d);
    } else {
        let d = decimal_digits(n as nat);
        lemma_decimal_digits(n as nat);
        assert(is_digit(d[0]));
    }
}

/// A numeric range `{a..b}` takes in each whole number from `a` to `b`,
/// both ends included, and no other: the decimal text of `n` is in the
/// range exactly when `a <= n <= b`, and so is a capture group that holds
/// it, checked against that range.
pub proof fn law_range_inclusive(n: i32, r: (i32, i32))
    ensures
        in_range(decimal(n as int), r) <==> r.0 <= n <= r.1,
        groups_outcome(seq![Some(decimal(n as int))], seq![r]) == Some(r.0 <= n <= r.1),
{
    lemma_parse_decimal(n);
    let groups = seq![Some(decimal(n as int))];
    assert(groups.drop_first() =~= Seq::<Option<Seq<char>>>::empty());
    assert(groups_outcome(groups.drop_first(), seq![r].drop_first()) == Some(true));
}

} // verus!
