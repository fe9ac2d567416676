//! Working out the properties of a file from the EditorConfig files of the
//! directories above it.
use vstd::prelude::*;
use crate::properties::Properties;
use crate::rules::{line_step, process_line, PairRule, Stop};
use crate::version::{max_version, spec_max_version, spec_v0_9_0, v0_9_0, Version};

verus! {

#[verifier::external_type_specification]
#[verifier::external_body]
pub struct ExIoError(std::io::Error);

/// Why the properties could not be worked out.
#[derive(Debug)]
pub enum Error {
    /// A section header holds a glob that is not valid.
    Parse,
    /// The path is not valid Unicode.
    InvalidPath,
    /// An EditorConfig file exists but could not be read.
    Io(std::io::Error),
}

/// Options for looking up properties.
#[derive(Debug, Clone, PartialEq, Eq)]
pub struct Options {
    /// Another name for EditorConfig files (defaults to ".editorconfig").
    pub file_name: String,
    /// Whether a value of `unset` removes a property (defaults to true);
    /// heeded by `Properties::new_with_options`.
    pub allow_unset: bool,
    /// EditorConfig version to use (defaults to the highest supported one).
    pub version: Version,
}

impl Default for Options {
    fn default() -> (r: Self)
        ensures
            r.file_name@ == ".editorconfig"@,
            r.allow_unset,
            r.version == spec_max_version(),
    {
        Options { file_name: ".editorconfig".to_owned(), allow_unset: true, version: max_version() }
    }
}

/// The EditorConfig file of one directory, as read: its lines, each with
/// its line break, and the error that stopped the reading, if one did. A
/// directory without such a file has no lines and no error.
pub struct EditorConfigFile {
    /// The directory, with `/` as separator.
    pub dir: String,
    /// The lines read, in order.
    pub lines: Vec<String>,
    /// The error that reading the file ended with.
    pub read_error: Option<std::io::Error>,
}

/// An EditorConfig file as the rules see it.
pub struct FileView {
    pub dir: Seq<char>,
    pub lines: Seq<Seq<char>>,
    pub failed: bool,
}

impl View for EditorConfigFile {
    type V = FileView;

    open spec fn view(&self) -> FileView {
        FileView { dir: self.dir@, lines: self.lines.deep_view(), failed: self.read_error is Some }
    }
}

/// The files as the rules see them.
pub open spec fn files_view(files: Seq<EditorConfigFile>) -> Seq<FileView> {
    files.map_values(|f: EditorConfigFile| f@)
}

pub type PropertyMap = Map<Seq<char>, Seq<char>>;

/// The first `n` lines applied, in order, to the properties `m0`, starting
/// before any section.
pub open spec fn lines_outcome(
    m0: PropertyMap,
    lines: Seq<Seq<char>>,
    n: int,
    file_path: Seq<char>,
    dir: Seq<char>,
    rule: PairRule,
) -> Result<(PropertyMap, Option<bool>), Stop>
    decreases n,
{
    if n <= 0 {
        Ok((m0, None))
    } else {
        match lines_outcome(m0, lines, n - 1, file_path, dir, rule) {
            Ok(st) => line_step(st.0, st.1, lines[n - 1], file_path, dir, rule),
            Err(e) => Err(e),
        }
    }
}

/// The properties after the first `n` lines applied to `m0`, or, where a
/// line stops the reading, after the lines before that one: what stays of
/// the lines applied when the reading stops.
pub open spec fn lines_map(
    m0: PropertyMap,
    lines: Seq<Seq<char>>,
    n: int,
    file_path: Seq<char>,
    dir: Seq<char>,
    rule: PairRule,
) -> PropertyMap
    decreases n,
{
    if n <= 0 {
        m0
    } else {
        match lines_outcome(m0, lines, n - 1, file_path, dir, rule) {
            Ok(st) => match line_step(st.0, st.1, lines[n - 1], file_path, dir, rule) {
                Ok(st2) => st2.0,
                Err(_) => st.0,
            },
            Err(_) => lines_map(m0, lines, n - 1, file_path, dir, rule),
        }
    }
}

/// After a line has stopped the reading, the later lines leave the
/// properties as they were.
proof fn lemma_lines_map_stop(
    m0: PropertyMap,
    lines: Seq<Seq<char>>,
    n0: int,
    n: int,
    file_path: Seq<char>,
    dir: Seq<char>,
    rule: PairRule,
)
    requires
        1 <= n0 <= n,
        lines_outcome(m0, lines, n0, file_path, dir, rule) is Err,
    ensures
        lines_map(m0, lines, n, file_path, dir, rule) == lines_map(m0, lines, n0, file_path, dir, rule),
    decreases n - n0,
{
    if n > n0 {
        lemma_lines_map_stop(m0, lines, n0, n - 1, file_path, dir, rule);
        lemma_lines_stop(m0, lines, n0, n - 1, file_path, dir, rule);
    }
}

/// One EditorConfig file applied to the properties `m0`.
pub open spec fn file_outcome(
    m0: PropertyMap,
    f: FileView,
    index: int,
    file_path: Seq<char>,
    rule: PairRule,
) -> Result<PropertyMap, Stop> {
    match lines_outcome(m0, f.lines, f.lines.len() as int, file_path, f.dir, rule) {
        Ok(st) => if f.failed {
            Err(Stop::Io(index as usize))
        } else {
            Ok(st.0)
        },
        Err(e) => Err(e),
    }
}

/// The first `n` EditorConfig files applied in order, the one of the
/// outermost directory first.
pub open spec fn files_outcome(
    files: Seq<FileView>,
    n: int,
    file_path: Seq<char>,
    rule: PairRule,
) -> Result<PropertyMap, Stop>
    decreases n,
{
    if n <= 0 {
        Ok(Map::empty())
    } else {
        match files_outcome(files, n - 1, file_path, rule) {
            Ok(m) => file_outcome(m, files[n - 1], n - 1, file_path, rule),
            Err(e) => Err(e),
        }
    }
}

/// The properties adjusted to the EditorConfig version: from 0.9.0 on,
/// `indent_style = tab` implies `indent_size = tab`, and `indent_size =
/// tab` takes the value of `tab_width`; `tab_width` defaults to
/// `indent_size` (before 0.9.0 even where that is `tab`).
pub open spec fn process(m: PropertyMap, version: Version) -> PropertyMap {
    let at_least = !version.spec_lt(spec_v0_9_0());
    let m1 = if at_least && m.contains_key("indent_style"@) && m["indent_style"@] == "tab"@
        && !m.contains_key("indent_size"@) {
        m.insert("indent_size"@, "tab"@)
    } else {
        m
    };
    let m2 = if at_least && m1.contains_key("indent_size"@) && m1["indent_size"@] == "tab"@
        && m1.contains_key("tab_width"@) {
        m1.insert("indent_size"@, m1["tab_width"@])
    } else {
        m1
    };
    if m2.contains_key("indent_size"@) && !m2.contains_key("tab_width"@) && (!at_least
        || m2["indent_size"@] != "tab"@) {
        m2.insert("tab_width"@, m2["indent_size"@])
    } else {
        m2
    }
}

/// The last step of each rule: `LowercaseSupported` drops a key `unset`.
pub open spec fn finish(m: PropertyMap, rule: PairRule) -> PropertyMap {
    match rule {
        PairRule::LowercaseSupported => m.remove("unset"@),
        PairRule::LowercaseAll { .. } => m,
    }
}

/// The properties of `file_path` from its EditorConfig files, outermost
/// directory first, or why they cannot be worked out.
pub open spec fn outcome(
    file_path: Seq<char>,
    files: Seq<FileView>,
    version: Version,
    rule: PairRule,
) -> Result<PropertyMap, Stop> {
    match files_outcome(files, files.len() as int, file_path, rule) {
        Ok(m) => Ok(finish(process(m, version), rule)),
        Err(e) => Err(e),
    }
}

/// Adjusts the properties to the EditorConfig version.
pub fn process_properties(properties: &mut Properties, version: Version)
    ensures
        final(properties)@ == process(old(properties)@, version),
{
    let indent_style = "indent_style".to_owned();
    let indent_size = "indent_size".to_owned();
    let tab_width = "tab_width".to_owned();
    let tab = "tab".to_owned();
    let at_least = !version.is_before(&v0_9_0());
    if at_least {
        let style_is_tab = match properties.get_value(&indent_style) {
            Some(v) => *v == tab,
            None => false,
        };
        if style_is_tab && !properties.contains_key(&indent_size) {
            properties.insert(indent_size.clone(), tab.clone());
        }
        let size_is_tab = match properties.get_value(&indent_size) {
            Some(v) => *v == tab,
            None => false,
        };
        if size_is_tab {
            let width = match properties.get_value(&tab_width) {
                Some(w) => Some(w.clone()),
                None => None,
            };
            match width {
                Some(w) => properties.insert(indent_size.clone(), w),
                None => {},
            }
        }
    }
    let size = match properties.get_value(&indent_size) {
        Some(s) => Some(s.clone()),
        None => None,
    };
    match size {
        Some(s) => {
            if !properties.contains_key(&tab_width) && (!at_least || s != tab) {
                properties.insert(tab_width, s);
            }
        },
        None => {},
    }
}


/// Once a line stops the reading, the later lines change nothing.
proof fn lemma_lines_stop(
    m0: PropertyMap,
    lines: Seq<Seq<char>>,
    n0: int,
    n: int,
    file_path: Seq<char>,
    dir: Seq<char>,
    rule: PairRule,
)
    requires
        n0 <= n,
        lines_outcome(m0, lines, n0, file_path, dir, rule) is Err,
    ensures
        lines_outcome(m0, lines, n, file_path, dir, rule) == lines_outcome(
            m0,
            lines,
            n0,
            file_path,
            dir,
            rule,
        ),
    decreases n - n0,
{
    if n > n0 {
        lemma_lines_stop(m0, lines, n0, n - 1, file_path, dir, rule);
    }
}

/// Once a file stops the reading, the later files change nothing.
proof fn lemma_files_stop(files: Seq<FileView>, n0: int, n: int, file_path: Seq<char>, rule: PairRule)
    requires
        n0 <= n,
        files_outcome(files, n0, file_path, rule) is Err,
    ensures
        files_outcome(files, n, file_path, rule) == files_outcome(files, n0, file_path, rule),
    decreases n - n0,
{
    if n > n0 {
        lemma_files_stop(files, n0, n - 1, file_path, rule);
    }
}

/// Applies the EditorConfig file `ec_file`, the one with index `index`, to
/// the properties: its lines in order, starting before any section, then
/// the error its reading ended with, if any.
pub fn parse_dir(
    ec_file: &EditorConfigFile,
    index: usize,
    file_path: &str,
    properties: &mut Properties,
    rule: PairRule,
) -> (r: Result<(), Stop>)
    ensures
        match file_outcome(old(properties)@, ec_file@, index as int, file_path@, rule) {
            Ok(m) => r is Ok && final(properties)@ == m,
            Err(e) => r == Err::<(), Stop>(e),
        },
        final(properties)@ == lines_map(
            old(properties)@,
            ec_file@.lines,
            ec_file@.lines.len() as int,
            file_path@,
            ec_file@.dir,
            rule,
        ),
{
    let ghost m0 = properties@;
    let ghost lines = ec_file.lines.deep_view();
    let mut section: Option<bool> = None;
    let mut i: usize = 0;
    while i < ec_file.lines.len()
        invariant
            i <= ec_file.lines@.len(),
            lines == ec_file.lines.deep_view(),
            lines.len() == ec_file.lines@.len(),
            m0 == old(properties)@,
            properties@ == lines_map(m0, lines, i as int, file_path@, ec_file.dir@, rule),
            lines_outcome(m0, lines, i as int, file_path@, ec_file.dir@, rule) == Ok::<
                (PropertyMap, Option<bool>),
                Stop,
            >((properties@, section)),
        decreases ec_file.lines@.len() - i,
    {
        assert(lines[i as int] == ec_file.lines@[i as int]@);
        match process_line(
            properties,
            &mut section,
            ec_file.lines[i].as_str(),
            file_path,
            ec_file.dir.as_str(),
            rule,
        ) {
            Err(e) => {
                proof {
                    lemma_lines_stop(
                        m0,
                        lines,
                        i + 1,
                        lines.len() as int,
                        file_path@,
                        ec_file.dir@,
                        rule,
                    );
                    lemma_lines_map_stop(
                        m0,
                        lines,
                        i + 1,
                        lines.len() as int,
                        file_path@,
                        ec_file.dir@,
                        rule,
                    );
                }
                return Err(e);
            },
            Ok(()) => {},
        }
        i = i + 1;
    }
    if ec_file.read_error.is_some() {
        return Err(Stop::Io(index));
    }
    Ok(())
}

/// Applies the EditorConfig files to an empty set of properties, outermost
/// directory first, then adjusts the result to `version` and `rule`.
pub fn resolve(file_path: &str, files: &[EditorConfigFile], version: Version, rule: PairRule) -> (r:
    Result<Properties, Stop>)
    ensures
        match r {
            Ok(p) => outcome(file_path@, files_view(files@), version, rule) == Ok::<
                PropertyMap,
                Stop,
            >(p@),
            Err(e) => outcome(file_path@, files_view(files@), version, rule) == Err::<
                PropertyMap,
                Stop,
            >(e),
        },
{
    let ghost fv = files_view(files@);
    let mut properties = Properties::empty();
    let mut k: usize = 0;
    while k < files.len()
        invariant
            k <= files@.len(),
            fv == files_view(files@),
            files_outcome(fv, k as int, file_path@, rule) == Ok::<PropertyMap, Stop>(
                properties@,
            ),
        decreases files@.len() - k,
    {
        assert(fv[k as int] == files@[k as int]@);
        match parse_dir(&files[k], k, file_path, &mut properties, rule) {
            Err(e) => {
                proof {
                    lemma_files_stop(fv, k + 1, fv.len() as int, file_path@, rule);
                }
                return Err(e);
            },
            Ok(()) => {},
        }
        k = k + 1;
    }
    process_properties(&mut properties, version);
    match rule {
        PairRule::LowercaseSupported => {
            properties.remove(&"unset".to_owned());
        },
        PairRule::LowercaseAll { .. } => {},
    }
    Ok(properties)
}


/// Lines stop the reading only for a glob.
proof fn lemma_lines_no_io(
    m0: PropertyMap,
    lines: Seq<Seq<char>>,
    n: int,
    file_path: Seq<char>,
    dir: Seq<char>,
    rule: PairRule,
)
    ensures
        !(lines_outcome(m0, lines, n, file_path, dir, rule) matches Err(Stop::Io(_))),
    decreases n,
{
    if n > 0 {
        lemma_lines_no_io(m0, lines, n - 1, file_path, dir, rule);
    }
}

/// Where reading stops at a failed file, the index is that of the file.
proof fn lemma_io_stop_index(files: Seq<FileView>, n: int, file_path: Seq<char>, rule: PairRule, k: usize)
    requires
        0 <= n <= files.len() <= usize::MAX,
        files_outcome(files, n, file_path, rule) == Err::<PropertyMap, Stop>(Stop::Io(k)),
    ensures
        k < n,
        files[k as int].failed,
    decreases n,
{
    if n > 0 {
        match files_outcome(files, n - 1, file_path, rule) {
            Ok(m) => {
                let f = files[n - 1];
                lemma_lines_no_io(m, f.lines, f.lines.len() as int, file_path, f.dir, rule);
            },
            Err(e) => {
                lemma_io_stop_index(files, n - 1, file_path, rule, k);
            },
        }
    }
}

/// `r` is the answer that `o` calls for: the properties, or the error, the
/// I/O error being the one that reading the file it names ended with.
/// Reading never stops as unmatchable here.
pub open spec fn answers(
    r: Result<Properties, Error>,
    o: Result<PropertyMap, Stop>,
    files: Seq<EditorConfigFile>,
) -> bool {
    match o {
        Ok(m) => r matches Ok(p) && p@ == m,
        Err(Stop::Parse) => r matches Err(Error::Parse),
        Err(Stop::Io(k)) => r matches Err(Error::Io(e)) && k < files.len() && files[k as int].read_error
            == Some(e),
        Err(Stop::Unmatchable) => false,
    }
}

/// Turns the outcome of `resolve` into the answer, taking the I/O error out
/// of the file it belongs to.
fn answer(r: Result<Properties, Stop>, files: Vec<EditorConfigFile>, ghost_o: Ghost<Result<PropertyMap, Stop>>) -> (a: Result<Properties, Error>)
    requires
        match r {
            Ok(p) => ghost_o@ == Ok::<PropertyMap, Stop>(p@),
            Err(e) => ghost_o@ == Err::<PropertyMap, Stop>(e),
        },
        ghost_o@ != Err::<PropertyMap, Stop>(Stop::Unmatchable),
        ghost_o@ matches Err(Stop::Io(k)) ==> k < files@.len() && files@[k as int].read_error is Some,
    ensures
        answers(a, ghost_o@, files@),
{
    match r {
        Ok(p) => Ok(p),
        Err(Stop::Parse) => Err(Error::Parse),
        Err(Stop::Io(k)) => {
            let mut files = files;
            let f = files.remove(k);
            match f.read_error {
                Some(e) => Err(Error::Io(e)),
                None => Err(Error::Parse),
            }
        },
        Err(Stop::Unmatchable) => Err(Error::Parse),
    }
}


/// The rule of the `Properties` constructors under `options`.
pub open spec fn unset_rule(allow_unset: bool) -> PairRule {
    PairRule::LowercaseAll { allow_unset }
}

/// Turns what `resolve` gave into the answer.
fn finish_answer(
    file_path: &str,
    files: Vec<EditorConfigFile>,
    version: Version,
    rule: PairRule,
    r: Result<Properties, Stop>,
) -> (a: Result<Properties, Error>)
    requires
        match r {
            Ok(p) => outcome(file_path@, files_view(files@), version, rule) == Ok::<
                PropertyMap,
                Stop,
            >(p@),
            Err(e) => outcome(file_path@, files_view(files@), version, rule) == Err::<
                PropertyMap,
                Stop,
            >(e),
        },
        outcome(file_path@, files_view(files@), version, rule) != Err::<PropertyMap, Stop>(
            Stop::Unmatchable,
        ),
    ensures
        answers(a, outcome(file_path@, files_view(files@), version, rule), files@),
{
    let ghost fv = files_view(files@);
    let n = files.len();
    assert(fv.len() == n);
    proof {
        match files_outcome(fv, fv.len() as int, file_path@, rule) {
            Err(Stop::Io(k)) => {
                lemma_io_stop_index(fv, fv.len() as int, file_path@, rule, k);
                assert(fv[k as int] == files@[k as int]@);
            },
            _ => {},
        }
    }
    answer(r, files, Ghost(outcome(file_path@, fv, version, rule)))
}

/// Works out the properties of the file at `path` from the EditorConfig
/// files of the directories above it, `files`, outermost first. Keys are
/// lower-cased, and values too for the supported properties; `indent_size`
/// and `tab_width` are completed as `options.version` prescribes, and a key
/// `unset` is dropped. Only `options.version` is used here.
pub fn properties_with_options(path: &str, files: Vec<EditorConfigFile>, options: Options) -> (r:
    Result<Properties, Error>)
    requires
        outcome(path@, files_view(files@), options.version, PairRule::LowercaseSupported) != Err::<
            PropertyMap,
            Stop,
        >(Stop::Unmatchable),
    ensures
        answers(
            r,
            outcome(path@, files_view(files@), options.version, PairRule::LowercaseSupported),
            files@,
        ),
{
    let res = resolve(path, files.as_slice(), options.version, PairRule::LowercaseSupported);
    finish_answer(path, files, options.version, PairRule::LowercaseSupported, res)
}

/// `properties_with_options` with the default options.
pub fn properties(path: &str, files: Vec<EditorConfigFile>) -> (r: Result<Properties, Error>)
    requires
        outcome(path@, files_view(files@), spec_max_version(), PairRule::LowercaseSupported)
            != Err::<PropertyMap, Stop>(Stop::Unmatchable),
    ensures
        answers(
            r,
            outcome(path@, files_view(files@), spec_max_version(), PairRule::LowercaseSupported),
            files@,
        ),
{
    properties_with_options(path, files, Options::default())
}

/// `properties_with_options`, or `None` where a section glob cannot tell
/// whether the file matches it.
pub fn try_properties_with_options(path: &str, files: Vec<EditorConfigFile>, options: Options) -> (r:
    Option<Result<Properties, Error>>)
    ensures
        r is None <==> outcome(path@, files_view(files@), options.version, PairRule::LowercaseSupported)
            == Err::<PropertyMap, Stop>(Stop::Unmatchable),
        r matches Some(a) ==> answers(
            a,
            outcome(path@, files_view(files@), options.version, PairRule::LowercaseSupported),
            files@,
        ),
{
    let unmatchable = match resolve(path, files.as_slice(), options.version, PairRule::LowercaseSupported) {
        Err(Stop::Unmatchable) => true,
        _ => false,
    };
    if unmatchable {
        None
    } else {
        Some(properties_with_options(path, files, options))
    }
}

/// `properties`, or `None` where a section glob cannot tell whether the
/// file matches it.
pub fn try_properties(path: &str, files: Vec<EditorConfigFile>) -> (r: Option<
    Result<Properties, Error>,
>)
    ensures
        r is None <==> outcome(path@, files_view(files@), spec_max_version(), PairRule::LowercaseSupported)
            == Err::<PropertyMap, Stop>(Stop::Unmatchable),
        r matches Some(a) ==> answers(
            a,
            outcome(path@, files_view(files@), spec_max_version(), PairRule::LowercaseSupported),
            files@,
        ),
{
    let unmatchable = match resolve(path, files.as_slice(), max_version(), PairRule::LowercaseSupported) {
        Err(Stop::Unmatchable) => true,
        _ => false,
    };
    if unmatchable {
        None
    } else {
        Some(properties(path, files))
    }
}

impl Properties {
    /// Works out the properties of the file at `path` from the EditorConfig
    /// files of the directories above it, `files`, outermost first. Keys and
    /// values are lower-cased; with `options.allow_unset`, a value `unset`
    /// (in any ASCII case) removes the key; `indent_size` and `tab_width`
    /// are completed as `options.version` prescribes.
    pub fn new_with_options(path: &str, files: Vec<EditorConfigFile>, options: Options) -> (r:
        Result<Properties, Error>)
        requires
            outcome(path@, files_view(files@), options.version, unset_rule(options.allow_unset))
                != Err::<PropertyMap, Stop>(Stop::Unmatchable),
        ensures
            answers(
                r,
                outcome(path@, files_view(files@), options.version, unset_rule(options.allow_unset)),
                files@,
            ),
    {
        let rule = PairRule::LowercaseAll { allow_unset: options.allow_unset };
        let res = resolve(path, files.as_slice(), options.version, rule);
        finish_answer(path, files, options.version, rule, res)
    }

    /// `new_with_options` with the default options: `unset` values are
    /// recognized.
    pub fn new(path: &str, files: Vec<EditorConfigFile>) -> (r: Result<Properties, Error>)
        requires
            outcome(path@, files_view(files@), spec_max_version(), unset_rule(true)) != Err::<
                PropertyMap,
                Stop,
            >(Stop::Unmatchable),
        ensures
            answers(
                r,
                outcome(path@, files_view(files@), spec_max_version(), unset_rule(true)),
                files@,
            ),
    {
        Properties::new_with_options(path, files, Options::default())
    }

    /// `new_with_options`, or `None` where a section glob cannot tell
    /// whether the file matches it.
    pub fn try_new_with_options(path: &str, files: Vec<EditorConfigFile>, options: Options) -> (r:
        Option<Result<Properties, Error>>)
        ensures
            r is None <==> outcome(
                path@,
                files_view(files@),
                options.version,
                unset_rule(options.allow_unset),
            ) == Err::<PropertyMap, Stop>(Stop::Unmatchable),
            r matches Some(a) ==> answers(
                a,
                outcome(path@, files_view(files@), options.version, unset_rule(options.allow_unset)),
                files@,
            ),
    {
        let rule = PairRule::LowercaseAll { allow_unset: options.allow_unset };
        let unmatchable = match resolve(path, files.as_slice(), options.version, rule) {
            Err(Stop::Unmatchable) => true,
            _ => false,
        };
        if unmatchable {
            None
        } else {
            Some(Properties::new_with_options(path, files, options))
        }
    }

    /// `new`, or `None` where a section glob cannot tell whether the file
    /// matches it.
    pub fn try_new(path: &str, files: Vec<EditorConfigFile>) -> (r: Option<
        Result<Properties, Error>,
    >)
        ensures
            r is None <==> outcome(path@, files_view(files@), spec_max_version(), unset_rule(true))
                == Err::<PropertyMap, Stop>(Stop::Unmatchable),
            r matches Some(a) ==> answers(
                a,
                outcome(path@, files_view(files@), spec_max_version(), unset_rule(true)),
                files@,
            ),
    {
        let rule = PairRule::LowercaseAll { allow_unset: true };
        let unmatchable = match resolve(path, files.as_slice(), max_version(), rule) {
            Err(Stop::Unmatchable) => true,
            _ => false,
        };
        if unmatchable {
            None
        } else {
            Some(Properties::new(path, files))
        }
    }
}

} // verus!
