# editorconfig_core

An EditorConfig core in Verus: given the path of a file and the EditorConfig
files of the directories above it, it works out the file's properties.

- `src/glob.rs`: section globs turned into anchored regular expressions
  (`Parser`, numeric ranges `{a..b}`, brace groups), and `Glob` matching.
- `src/matcher.rs`: the calls into `regex` and `regex-syntax` (escaping,
  compiling, capture groups), each with the contract it is trusted for.
- `src/rules.rs`: what one line of an EditorConfig file does.
- `src/resolve.rs`: files applied in order, the version adjustments of
  `indent_size` and `tab_width`, and the public entry points
  (`properties`, `properties_with_options`, `Properties::new`, ...).
- `src/properties.rs`: `Properties`, a map from keys to values. It keeps
  its pairs in a `Vec` whose keys are distinct (a type invariant), viewed as
  a `Map`. A `HashMap<String, String>` was not used: vstd's `HashMap`
  specifications describe the map only for key types known to obey its hash
  model (`obeys_key_model`), which vstd grants to primitive types but not to
  `String`, and which could only be assumed.
- `src/paths.rs`: the directories above a `/`-separated path.
- `src/property.rs`: typed properties (`Property`, `IndentStyle`, ...).
- `src/laws.rs`: properties proved of the library as a whole.
- `src/text.rs`, `src/version.rs`: characters, strings and versions.
- `app/main.rs`: the `editorconfig` command, which reads the files of the
  directories that `paths::ancestor_dirs` lists.

The functions that take the files as read (`properties`, `Properties::new`,
...) require that no section glob leaves a numeric range to be checked
against a capture group that took no part in the match; their `try_`
counterparts answer `None` there instead.
