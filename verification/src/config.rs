//! Scan settings: defaults, the overlay read from `llm-lint.toml` or
//! `llm-lint.json`, and command-line overrides.

use vstd::prelude::*;
use crate::text::{lowercase, normalized, str_eq, to_lowercase, trim, trim_str, trimmed_nonempty, views};

verus! {

/// Scan settings.
///
/// `large_file_extensions` and `exclude_severities` are sets: only membership in
/// them matters, as the view states.
#[derive(Debug, Clone)]
pub struct Config {
    pub max_file_lines_warning: i32,
    pub max_file_lines_high: i32,
    pub max_function_lines_warning: i32,
    pub max_function_lines_high: i32,
    pub fail_threshold: i32,
    pub include_extensions: Vec<String>,
    pub large_file_extensions: Vec<String>,
    pub exclude_dirs: Vec<String>,
    pub exclude_files: Vec<String>,
    pub exclude_severities: Vec<String>,
    pub verbose: bool,
    /// If `None`, all known rules run. If set, only these rule ids.
    pub include_rules: Option<Vec<String>>,
}

/// A [`Config`] with its strings taken as character sequences and its two set
/// fields taken as sets.
pub struct ConfigView {
    pub max_file_lines_warning: i32,
    pub max_file_lines_high: i32,
    pub max_function_lines_warning: i32,
    pub max_function_lines_high: i32,
    pub fail_threshold: i32,
    pub include_extensions: Seq<Seq<char>>,
    pub large_file_extensions: Set<Seq<char>>,
    pub exclude_dirs: Seq<Seq<char>>,
    pub exclude_files: Seq<Seq<char>>,
    pub exclude_severities: Set<Seq<char>>,
    pub verbose: bool,
    pub include_rules: Option<Seq<Seq<char>>>,
}

/// The view of an optional list of strings.
pub open spec fn opt_views(o: Option<Vec<String>>) -> Option<Seq<Seq<char>>> {
    match o {
        Some(v) => Some(views(v@)),
        None => None,
    }
}

impl View for Config {
    type V = ConfigView;

    open spec fn view(&self) -> ConfigView {
        ConfigView {
            max_file_lines_warning: self.max_file_lines_warning,
            max_file_lines_high: self.max_file_lines_high,
            max_function_lines_warning: self.max_function_lines_warning,
            max_function_lines_high: self.max_function_lines_high,
            fail_threshold: self.fail_threshold,
            include_extensions: views(self.include_extensions@),
            large_file_extensions: views(self.large_file_extensions@).to_set(),
            exclude_dirs: views(self.exclude_dirs@),
            exclude_files: views(self.exclude_files@),
            exclude_severities: views(self.exclude_severities@).to_set(),
            verbose: self.verbose,
            include_rules: opt_views(self.include_rules),
        }
    }
}

/// The built-in settings.
pub open spec fn default_config() -> ConfigView {
    ConfigView {
        max_file_lines_warning: 400,
        max_file_lines_high: 800,
        max_function_lines_warning: 50,
        max_function_lines_high: 100,
        fail_threshold: 20,
        include_extensions: seq![
            ".py"@,
            ".js"@,
            ".ts"@,
            ".tsx"@,
            ".jsx"@,
            ".vue"@,
            ".html"@,
        ],
        large_file_extensions: set![".py"@, ".js"@, ".ts"@, ".tsx"@, ".jsx"@, ".vue"@],
        exclude_dirs: seq![
            ".git"@,
            "node_modules"@,
            ".nuxt"@,
            "dist"@,
            "build"@,
            ".venv"@,
            "coverage"@,
            "tests"@,
            "__pycache__"@,
            ".pytest_cache"@,
            ".mypy_cache"@,
            ".ruff_cache"@,
        ],
        exclude_files: Seq::empty(),
        exclude_severities: Set::empty(),
        verbose: false,
        include_rules: None,
    }
}

fn owned(s: &str) -> (r: String)
    ensures
        r@ == s@,
{
    s.to_owned()
}

impl Default for Config {
    fn default() -> (r: Config)
        ensures
            r@ == default_config(),
    {
        let include_extensions = vec![
            owned(".py"),
            owned(".js"),
            owned(".ts"),
            owned(".tsx"),
            owned(".jsx"),
            owned(".vue"),
            owned(".html"),
        ];
        let large_file_extensions = vec![
            owned(".py"),
            owned(".js"),
            owned(".ts"),
            owned(".tsx"),
            owned(".jsx"),
            owned(".vue"),
        ];
        let exclude_dirs = vec![
            owned(".git"),
            owned("node_modules"),
            owned(".nuxt"),
            owned("dist"),
            owned("build"),
            owned(".venv"),
            owned("coverage"),
            owned("tests"),
            owned("__pycache__"),
            owned(".pytest_cache"),
            owned(".mypy_cache"),
            owned(".ruff_cache"),
        ];
        let r = Config {
            max_file_lines_warning: 400,
            max_file_lines_high: 800,
            max_function_lines_warning: 50,
            max_function_lines_high: 100,
            fail_threshold: 20,
            include_extensions,
            large_file_extensions,
            exclude_dirs,
            exclude_files: Vec::new(),
            exclude_severities: Vec::new(),
            verbose: false,
            include_rules: None,
        };
        proof {
            let d = default_config();
            assert(views(r.include_extensions@) =~= d.include_extensions);
            assert(views(r.exclude_dirs@) =~= d.exclude_dirs);
            assert(views(r.exclude_files@) =~= d.exclude_files);
            let l = views(r.large_file_extensions@);
            assert(l =~= seq![".py"@, ".js"@, ".ts"@, ".tsx"@, ".jsx"@, ".vue"@]);
            assert(l.to_set() =~= d.large_file_extensions) by {
                assert forall|x| l.to_set().contains(x) <==> d.large_file_extensions.contains(x) by {
                    if d.large_file_extensions.contains(x) {
                        if x == ".py"@ { assert(l[0] == x); }
                        if x == ".js"@ { assert(l[1] == x); }
                        if x == ".ts"@ { assert(l[2] == x); }
                        if x == ".tsx"@ { assert(l[3] == x); }
                        if x == ".jsx"@ { assert(l[4] == x); }
                        if x == ".vue"@ { assert(l[5] == x); }
                    }
                }
            }
            assert(views(r.exclude_severities@).to_set() =~= d.exclude_severities);
        }
        r
    }
}


/// Errors while loading or checking settings. The reading and parsing errors carry
/// the file's path and the reader's or parser's message.
#[derive(Debug, Clone)]
pub enum ConfigError {
    Io(String, String),
    Json(String, String),
    Toml(String, String),
    Invalid(String),
}

impl ConfigError {
    /// The text of this error, as it is shown to the user.
    pub fn message(&self) -> (r: String)
        ensures
            r@ == config_error_text(*self),
    {
        match self {
            ConfigError::Io(p, e) => {
                let mut r = owned("failed to read ");
                r.append(p.as_str());
                r.append(": ");
                r.append(e.as_str());
                r
            },
            ConfigError::Json(p, e) => {
                let mut r = owned("invalid JSON in ");
                r.append(p.as_str());
                r.append(": ");
                r.append(e.as_str());
                r
            },
            ConfigError::Toml(p, e) => {
                let mut r = owned("invalid TOML in ");
                r.append(p.as_str());
                r.append(": ");
                r.append(e.as_str());
                r
            },
            ConfigError::Invalid(m) => m.clone(),
        }
    }
}

/// The text of a [`ConfigError`].
pub open spec fn config_error_text(e: ConfigError) -> Seq<char> {
    match e {
        ConfigError::Io(p, m) => "failed to read "@ + p@ + ": "@ + m@,
        ConfigError::Json(p, m) => "invalid JSON in "@ + p@ + ": "@ + m@,
        ConfigError::Toml(p, m) => "invalid TOML in "@ + p@ + ": "@ + m@,
        ConfigError::Invalid(m) => m@,
    }
}

/// Which configuration file a scan root's settings come from.
#[derive(Debug, Clone, PartialEq, Eq)]
pub enum ConfigSource {
    /// `llm-lint.toml`, to be parsed from this text (the file's text trimmed).
    Toml(String),
    /// `llm-lint.json`, read and parsed whole.
    Json,
    /// Neither file: the built-in defaults.
    Defaults,
}

/// The choice of configuration file: `llm-lint.toml` when it exists and is not
/// blank, else `llm-lint.json` when it exists, else none. `toml_text` is the text
/// of `llm-lint.toml` when it exists.
pub open spec fn config_source_of(toml_text: Option<Seq<char>>, json_present: bool) -> ConfigSourceView {
    match toml_text {
        Some(t) if trim(t).len() > 0 => ConfigSourceView::Toml(trim(t)),
        _ => if json_present {
            ConfigSourceView::Json
        } else {
            ConfigSourceView::Defaults
        },
    }
}

/// A [`ConfigSource`] with its text taken as a character sequence.
pub enum ConfigSourceView {
    Toml(Seq<char>),
    Json,
    Defaults,
}

impl View for ConfigSource {
    type V = ConfigSourceView;

    open spec fn view(&self) -> ConfigSourceView {
        match self {
            ConfigSource::Toml(t) => ConfigSourceView::Toml(t@),
            ConfigSource::Json => ConfigSourceView::Json,
            ConfigSource::Defaults => ConfigSourceView::Defaults,
        }
    }
}

/// Chooses the configuration file of a scan root.
pub fn config_source(toml_text: Option<&str>, json_present: bool) -> (r: ConfigSource)
    ensures
        r@ == config_source_of(
            match toml_text {
                Some(t) => Some(t@),
                None => None,
            },
            json_present,
        ),
{
    if let Some(t) = toml_text {
        let trimmed = trim_str(t);
        if !trimmed.as_str().is_empty() {
            return ConfigSource::Toml(trimmed);
        }
    }
    if json_present {
        ConfigSource::Json
    } else {
        ConfigSource::Defaults
    }
}

/// The settings a configuration file may give; a missing key is `None`.
#[derive(Debug, Clone)]
pub struct ConfigFile {
    pub include_rules: Option<Vec<String>>,
    pub fail_threshold: Option<i32>,
    pub max_file_lines_warning: Option<i32>,
    pub max_file_lines_high: Option<i32>,
    pub max_function_lines_warning: Option<i32>,
    pub max_function_lines_high: Option<i32>,
    pub include_extensions: Option<Vec<String>>,
    pub large_file_extensions: Option<Vec<String>>,
    pub exclude_dirs: Option<Vec<String>>,
    pub exclude_files: Option<Vec<String>>,
    pub exclude_severities: Option<Vec<String>>,
    pub verbose: Option<bool>,
}

/// A [`ConfigFile`] with its strings taken as character sequences.
pub struct ConfigFileView {
    pub include_rules: Option<Seq<Seq<char>>>,
    pub fail_threshold: Option<i32>,
    pub max_file_lines_warning: Option<i32>,
    pub max_file_lines_high: Option<i32>,
    pub max_function_lines_warning: Option<i32>,
    pub max_function_lines_high: Option<i32>,
    pub include_extensions: Option<Seq<Seq<char>>>,
    pub large_file_extensions: Option<Seq<Seq<char>>>,
    pub exclude_dirs: Option<Seq<Seq<char>>>,
    pub exclude_files: Option<Seq<Seq<char>>>,
    pub exclude_severities: Option<Seq<Seq<char>>>,
    pub verbose: Option<bool>,
}

impl View for ConfigFile {
    type V = ConfigFileView;

    open spec fn view(&self) -> ConfigFileView {
        ConfigFileView {
            include_rules: opt_views(self.include_rules),
            fail_threshold: self.fail_threshold,
            max_file_lines_warning: self.max_file_lines_warning,
            max_file_lines_high: self.max_file_lines_high,
            max_function_lines_warning: self.max_function_lines_warning,
            max_function_lines_high: self.max_function_lines_high,
            include_extensions: opt_views(self.include_extensions),
            large_file_extensions: opt_views(self.large_file_extensions),
            exclude_dirs: opt_views(self.exclude_dirs),
            exclude_files: opt_views(self.exclude_files),
            exclude_severities: opt_views(self.exclude_severities),
            verbose: self.verbose,
        }
    }
}

/// The view of an optional configuration file.
pub open spec fn opt_file_view(f: Option<ConfigFile>) -> Option<ConfigFileView> {
    match f {
        Some(f) => Some(f@),
        None => None,
    }
}

fn normalize_str_list(values: Vec<String>, _key: &str) -> (r: Result<Vec<String>, ConfigError>)
    ensures
        r matches Ok(v) && views(v@) == normalized(views(values@)),
{
    Ok(trimmed_nonempty(&values))
}

/// The severity names a configuration may exclude.
pub open spec fn valid_severity(s: Seq<char>) -> bool {
    s == "low"@ || s == "medium"@ || s == "high"@
}

/// Each entry of `s` lower-cased.
pub open spec fn lowered(s: Seq<Seq<char>>) -> Seq<Seq<char>> {
    s.map_values(|x: Seq<char>| lowercase(x))
}

/// The first entry of `s` that is not a severity name, if any.
pub open spec fn first_invalid(s: Seq<Seq<char>>) -> Option<Seq<char>>
    decreases s.len(),
{
    if s.len() == 0 {
        None
    } else if !valid_severity(s[0]) {
        Some(s[0])
    } else {
        first_invalid(s.drop_first())
    }
}

/// The message for an excluded severity that is not a severity name.
pub open spec fn invalid_severity_message(s: Seq<char>) -> Seq<char> {
    "Config 'exclude-severities' must be only low, medium, high; invalid: "@ + s
}

/// The value in `o`, or `d` when there is none.
pub open spec fn or_else<T>(o: Option<T>, d: T) -> T {
    match o {
        Some(v) => v,
        None => d,
    }
}

/// The list in `o`, normalized, or `d` when there is none.
pub open spec fn list_or(o: Option<Seq<Seq<char>>>, d: Seq<Seq<char>>) -> Seq<Seq<char>> {
    match o {
        Some(v) => normalized(v),
        None => d,
    }
}

/// The settings `c` with those that the file `f` gives put in their place.
pub open spec fn overlay(c: ConfigView, f: ConfigFileView) -> ConfigView {
    ConfigView {
        max_file_lines_warning: or_else(f.max_file_lines_warning, c.max_file_lines_warning),
        max_file_lines_high: or_else(f.max_file_lines_high, c.max_file_lines_high),
        max_function_lines_warning: or_else(
            f.max_function_lines_warning,
            c.max_function_lines_warning,
        ),
        max_function_lines_high: or_else(f.max_function_lines_high, c.max_function_lines_high),
        fail_threshold: or_else(f.fail_threshold, c.fail_threshold),
        include_extensions: list_or(f.include_extensions, c.include_extensions),
        large_file_extensions: match f.large_file_extensions {
            Some(v) => normalized(v).to_set(),
            None => c.large_file_extensions,
        },
        exclude_dirs: list_or(f.exclude_dirs, c.exclude_dirs),
        exclude_files: list_or(f.exclude_files, c.exclude_files),
        exclude_severities: match f.exclude_severities {
            Some(v) => lowered(v).to_set(),
            None => c.exclude_severities,
        },
        verbose: or_else(f.verbose, c.verbose),
        include_rules: f.include_rules,
    }
}

/// The settings `c` with the command-line overrides put in their place.
pub open spec fn with_cli(
    c: ConfigView,
    fail_threshold: Option<i32>,
    verbose: Option<bool>,
    max_file_lines: Option<i32>,
    max_function_lines: Option<i32>,
) -> ConfigView {
    ConfigView {
        fail_threshold: or_else(fail_threshold, c.fail_threshold),
        verbose: or_else(verbose, c.verbose),
        max_file_lines_warning: or_else(max_file_lines, c.max_file_lines_warning),
        max_function_lines_warning: or_else(max_function_lines, c.max_function_lines_warning),
        ..c
    }
}

/// The error a configuration file gives, if any: an excluded severity that is
/// not `low`, `medium` or `high` once lower-cased.
pub open spec fn file_error(f: ConfigFileView) -> Option<Seq<char>> {
    match f.exclude_severities {
        Some(v) => match first_invalid(lowered(v)) {
            Some(s) => Some(invalid_severity_message(s)),
            None => None,
        },
        None => None,
    }
}

/// The settings that result from `base`, the file overlay and the command line,
/// or the message of the error the file gives.
pub open spec fn merged(
    base: ConfigView,
    file: Option<ConfigFileView>,
    fail_threshold: Option<i32>,
    verbose: Option<bool>,
    max_file_lines: Option<i32>,
    max_function_lines: Option<i32>,
) -> Result<ConfigView, Seq<char>> {
    match file {
        Some(f) => match file_error(f) {
            Some(m) => Err(m),
            None => Ok(
                with_cli(overlay(base, f), fail_threshold, verbose, max_file_lines, max_function_lines),
            ),
        },
        None => Ok(with_cli(base, fail_threshold, verbose, max_file_lines, max_function_lines)),
    }
}

/// Command-line overrides win: whatever the defaults and the file say, a
/// threshold, verbosity or line limit given on the command line is the one that
/// holds.
pub proof fn lemma_cli_overrides_win(
    base: ConfigView,
    file: Option<ConfigFileView>,
    fail_threshold: Option<i32>,
    verbose: Option<bool>,
    max_file_lines: Option<i32>,
    max_function_lines: Option<i32>,
)
    ensures
        merged(base, file, fail_threshold, verbose, max_file_lines, max_function_lines) matches Ok(c)
            ==> {
            &&& (fail_threshold matches Some(t) ==> c.fail_threshold == t)
            &&& (verbose matches Some(v) ==> c.verbose == v)
            &&& (max_file_lines matches Some(m) ==> c.max_file_lines_warning == m)
            &&& (max_function_lines matches Some(m) ==> c.max_function_lines_warning == m)
        },
{
}

/// A setting the file gives holds unless the command line overrides it; one it
/// does not give keeps the base value.
pub proof fn lemma_file_overrides_base(base: ConfigView, f: ConfigFileView)
    ensures
        merged(base, Some(f), None, None, None, None) matches Ok(c) ==> {
            &&& c.fail_threshold == or_else(f.fail_threshold, base.fail_threshold)
            &&& c.max_file_lines_warning == or_else(f.max_file_lines_warning, base.max_file_lines_warning)
            &&& c.max_file_lines_high == or_else(f.max_file_lines_high, base.max_file_lines_high)
            &&& c.max_function_lines_warning == or_else(f.max_function_lines_warning, base.max_function_lines_warning)
            &&& c.max_function_lines_high == or_else(f.max_function_lines_high, base.max_function_lines_high)
            &&& c.verbose == or_else(f.verbose, base.verbose)
            &&& c.include_rules == f.include_rules
        },
        merged(base, None, None, None, None, None) == Ok::<ConfigView, Seq<char>>(base),
{
}

/// A list the file gives replaces the one of the base settings outright: the
/// merged list is the file's list with each entry trimmed and blank entries
/// dropped, in the file's order, and nothing of the base list is kept. The base
/// list stays only when the file gives none.
pub proof fn lemma_file_lists_replace_base(
    base: ConfigView,
    f: ConfigFileView,
    fail_threshold: Option<i32>,
    verbose: Option<bool>,
    max_file_lines: Option<i32>,
    max_function_lines: Option<i32>,
)
    ensures
        merged(base, Some(f), fail_threshold, verbose, max_file_lines, max_function_lines) matches Ok(c)
            ==> {
            &&& c.exclude_dirs == (match f.exclude_dirs {
                Some(v) => normalized(v),
                None => base.exclude_dirs,
            })
            &&& c.exclude_files == (match f.exclude_files {
                Some(v) => normalized(v),
                None => base.exclude_files,
            })
            &&& c.include_extensions == (match f.include_extensions {
                Some(v) => normalized(v),
                None => base.include_extensions,
            })
            &&& c.large_file_extensions == (match f.large_file_extensions {
                Some(v) => normalized(v).to_set(),
                None => base.large_file_extensions,
            })
            &&& c.exclude_severities == (match f.exclude_severities {
                Some(v) => v.map_values(|x: Seq<char>| lowercase(x)).to_set(),
                None => base.exclude_severities,
            })
        },
{
}

/// The file fails to load exactly when an excluded severity is not `low`,
/// `medium` or `high` once lower-cased.
pub proof fn lemma_merge_fails_only_on_severities(
    base: ConfigView,
    file: Option<ConfigFileView>,
    fail_threshold: Option<i32>,
    verbose: Option<bool>,
    max_file_lines: Option<i32>,
    max_function_lines: Option<i32>,
)
    ensures
        merged(base, file, fail_threshold, verbose, max_file_lines, max_function_lines) is Err
            <==> (file matches Some(f) && f.exclude_severities matches Some(v) && first_invalid(
            lowered(v),
        ) is Some),
{
}

proof fn lemma_first_invalid_skip(s: Seq<Seq<char>>, i: int)
    requires
        0 <= i <= s.len(),
        forall|k: int| 0 <= k < i ==> valid_severity(#[trigger] s[k]),
    ensures
        first_invalid(s) == first_invalid(s.skip(i)),
    decreases i,
{
    assert(s.skip(0) == s);
    if i > 0 {
        assert(s.skip(i) == s.drop_first().skip(i - 1));
        lemma_first_invalid_skip(s.drop_first(), i - 1);
    }
}

/// Lower-cases the excluded severities and checks each against the three names.
fn check_severities(v: &Vec<String>) -> (r: Result<Vec<String>, ConfigError>)
    ensures
        r is Ok <==> first_invalid(lowered(views(v@))) is None,
        r matches Ok(lower) ==> views(lower@) == lowered(views(v@)),
        r matches Err(e) ==> e is Invalid && e->Invalid_0@ == invalid_severity_message(
            first_invalid(lowered(views(v@)))->0,
        ),
{
    let ghost want = lowered(views(v@));
    let mut lower: Vec<String> = Vec::new();
    let mut i: usize = 0;
    while i < v.len()
        invariant
            i <= v@.len(),
            want == lowered(views(v@)),
            views(lower@) == want.take(i as int),
        decreases v.len() - i,
    {
        let l = to_lowercase(v[i].as_str());
        let ghost before = lower@;
        lower.push(l);
        assert(views(lower@) =~= views(before).push(l@));
        assert(want.take(i + 1) =~= want.take(i as int).push(want[i as int]));
        i += 1;
    }
    assert(want.take(v@.len() as int) == want);
    let mut j: usize = 0;
    while j < lower.len()
        invariant
            j <= lower@.len() == want.len(),
            want == lowered(views(v@)),
            views(lower@) == want,
            forall|k: int| 0 <= k < j ==> valid_severity(#[trigger] want[k]),
        decreases lower.len() - j,
    {
        let s = lower[j].as_str();
        assert(want[j as int] == s@);
        if !(str_eq(s, "low") || str_eq(s, "medium") || str_eq(s, "high")) {
            proof {
                lemma_first_invalid_skip(want, j as int);
                let t = want.skip(j as int);
                assert(t[0] == want[j as int]);
            }
            let mut m = owned("Config 'exclude-severities' must be only low, medium, high; invalid: ");
            m.append(s);
            return Err(ConfigError::Invalid(m));
        }
        j += 1;
    }
    proof {
        lemma_first_invalid_skip(want, want.len() as int);
        assert(want.skip(want.len() as int).len() == 0);
    }
    Ok(lower)
}

/// The settings `base` with those that the file `f` gives put in their place.
fn overlay_file(base: Config, f: ConfigFile) -> (r: Result<Config, ConfigError>)
    ensures
        match r {
            Ok(c) => file_error(f@) is None && c@ == overlay(base@, f@),
            Err(e) => e is Invalid && file_error(f@) == Some(e->Invalid_0@),
        },
{
    let mut base = base;
    let ghost b0 = base@;
    let ghost fv = f@;
    if let Some(v) = f.fail_threshold {
        base.fail_threshold = v;
    }
    if let Some(v) = f.max_file_lines_warning {
        base.max_file_lines_warning = v;
    }
    if let Some(v) = f.max_file_lines_high {
        base.max_file_lines_high = v;
    }
    if let Some(v) = f.max_function_lines_warning {
        base.max_function_lines_warning = v;
    }
    if let Some(v) = f.max_function_lines_high {
        base.max_function_lines_high = v;
    }
    if let Some(v) = f.include_extensions {
        match normalize_str_list(v, "include-extensions") {
            Ok(n) => base.include_extensions = n,
            Err(e) => return Err(e),
        }
    }
    if let Some(v) = f.large_file_extensions {
        match normalize_str_list(v, "large-file-extensions") {
            Ok(n) => base.large_file_extensions = n,
            Err(e) => return Err(e),
        }
    }
    if let Some(v) = f.exclude_dirs {
        match normalize_str_list(v, "exclude-dirs") {
            Ok(n) => base.exclude_dirs = n,
            Err(e) => return Err(e),
        }
    }
    if let Some(v) = f.exclude_files {
        match normalize_str_list(v, "exclude-files") {
            Ok(n) => base.exclude_files = n,
            Err(e) => return Err(e),
        }
    }
    if let Some(v) = f.exclude_severities {
        match check_severities(&v) {
            Ok(lower) => base.exclude_severities = lower,
            Err(e) => return Err(e),
        }
    }
    if let Some(v) = f.verbose {
        base.verbose = v;
    }
    base.include_rules = f.include_rules;
    Ok(base)
}

/// Applies the file overlay `file` and then the command-line overrides to `base`.
pub fn merge_config(
    base: Config,
    file: Option<ConfigFile>,
    cli_fail_threshold: Option<i32>,
    cli_verbose: Option<bool>,
    cli_max_file_lines: Option<i32>,
    cli_max_function_lines: Option<i32>,
) -> (r: Result<Config, ConfigError>)
    ensures
        match r {
            Ok(c) => merged(
                base@,
                opt_file_view(file),
                cli_fail_threshold,
                cli_verbose,
                cli_max_file_lines,
                cli_max_function_lines,
            ) == Ok::<ConfigView, Seq<char>>(c@),
            Err(e) => e is Invalid && merged(
                base@,
                opt_file_view(file),
                cli_fail_threshold,
                cli_verbose,
                cli_max_file_lines,
                cli_max_function_lines,
            ) == Err::<ConfigView, Seq<char>>(e->Invalid_0@),
        },
{
    let mut base = base;
    if let Some(f) = file {
        match overlay_file(base, f) {
            Ok(c) => base = c,
            Err(e) => return Err(e),
        }
    }
    if let Some(t) = cli_fail_threshold {
        base.fail_threshold = t;
    }
    if let Some(v) = cli_verbose {
        base.verbose = v;
    }
    if let Some(m) = cli_max_file_lines {
        base.max_file_lines_warning = m;
    }
    if let Some(m) = cli_max_function_lines {
        base.max_function_lines_warning = m;
    }
    Ok(base)
}

/// Builds the settings from the defaults, the configuration file that was read
/// (if any) and the command line. `-v` turns verbose output on; without it the
/// file decides.
pub fn merge_config_simple(
    file: Option<ConfigFile>,
    cli_fail_threshold: Option<i32>,
    verbose_cli: bool,
    cli_max_file_lines: Option<i32>,
    cli_max_function_lines: Option<i32>,
) -> (r: Result<Config, ConfigError>)
    ensures
        match r {
            Ok(c) => merged(
                default_config(),
                opt_file_view(file),
                cli_fail_threshold,
                if verbose_cli { Some(true) } else { None },
                cli_max_file_lines,
                cli_max_function_lines,
            ) == Ok::<ConfigView, Seq<char>>(c@),
            Err(e) => e is Invalid && merged(
                default_config(),
                opt_file_view(file),
                cli_fail_threshold,
                if verbose_cli { Some(true) } else { None },
                cli_max_file_lines,
                cli_max_function_lines,
            ) == Err::<ConfigView, Seq<char>>(e->Invalid_0@),
        },
{
    let cli_v = if verbose_cli { Some(true) } else { None };
    merge_config(
        Config::default(),
        file,
        cli_fail_threshold,
        cli_v,
        cli_max_file_lines,
        cli_max_function_lines,
    )
}

} // verus!
