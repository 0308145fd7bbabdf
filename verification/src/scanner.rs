//! A scan: which rules run, the file contexts, and the aggregated result.

use vstd::prelude::*;
use crate::config::{Config, ConfigView};
use crate::models::{
    all_from_rule, context_views, finding_views, FileContext, FileContextView, Finding, FindingView,
    ScanResult,
};
use crate::parsers::python::{parse_python, python_file_functions};
use crate::parsers::text::{parse_text, text_functions};
use crate::paths::{extension, extension_of, file_name, file_name_of, sort_strings, sorted_by};
use crate::rules::duplicate_functions::{duplicate_findings, lemma_duplicate_rule_id, DUPLICATE_FUNCTIONS};
use crate::rules::exposed_secrets::{secret_rule, EXPOSED_SECRETS};
use crate::rules::fallback_defaults::{fallback_rule, FALLBACK_DEFAULTS};
use crate::rules::helper_sprawl::{
    helper_file_findings, lemma_helper_file_rule_id, lemma_variant_rule_id, variant_findings,
    HELPER_SPRAWL,
};
use crate::rules::large_file::{large_file_findings, lemma_large_file_rule_id, LARGE_FILE};
use crate::rules::large_function::{large_function_findings, lemma_large_function_rule_id, LARGE_FUNCTION};
use crate::rules::line_rule::{lemma_line_rule_id, line_rule_findings};
use crate::rules::{
    registered_rule_ids, rule_ids, DuplicateFunctionsRule, ExposedSecretsRule,
    FallbackDefaultsRule, HelperSprawlRule, LargeFileRule, LargeFunctionRule,
};
use crate::scoring::{compute_score, wrapped_score_sum};
use crate::text::{
    contains_str, decode_utf8_lossy, str_eq, eq_ignore_ascii_case, join, join_strings, lines, lines_of,
    lowercase, str_eq_ignore_ascii_case, to_lowercase, utf8_lossy, views,
};

verus! {

/// Errors of a scan. A file that could not be read carries its path and the
/// reader's message.
#[derive(Debug, Clone)]
pub enum ScanError {
    UnknownRules(String),
    Git(String),
    ReadFile { path: String, message: String },
}

/// The text of a [`ScanError`].
pub open spec fn scan_error_text(e: ScanError) -> Seq<char> {
    match e {
        ScanError::UnknownRules(s) => "unknown rule id(s) in config include list: "@ + s@,
        ScanError::Git(s) => "git: "@ + s@,
        ScanError::ReadFile { path, message } => "failed to read "@ + path@ + ": "@ + message@,
    }
}

impl ScanError {
    /// The text of this error, as it is shown to the user.
    pub fn message(&self) -> (r: String)
        ensures
            r@ == scan_error_text(*self),
    {
        match self {
            ScanError::UnknownRules(s) => {
                let mut r = "unknown rule id(s) in config include list: ".to_owned();
                r.append(s.as_str());
                r
            },
            ScanError::Git(s) => {
                let mut r = "git: ".to_owned();
                r.append(s.as_str());
                r
            },
            ScanError::ReadFile { path, message } => {
                let mut r = "failed to read ".to_owned();
                r.append(path.as_str());
                r.append(": ");
                r.append(message.as_str());
                r
            },
        }
    }
}

/// The rule ids a configuration asks for: every registered rule when the list is
/// not set, and exactly the listed ids when it is (an empty list selects none).
pub open spec fn chosen_rules(c: ConfigView) -> Seq<Seq<char>> {
    match c.include_rules {
        Some(v) => v,
        None => rule_ids(),
    }
}

/// The rule ids a configuration asks for that do not exist.
pub open spec fn unknown_rules(c: ConfigView) -> Set<Seq<char>> {
    chosen_rules(c).to_set().difference(rule_ids().to_set())
}

/// The text listing unknown rule ids: each once, in string order, joined with `, `.
pub open spec fn lists_unknown(c: ConfigView, text: Seq<char>) -> bool {
    exists|s: Seq<Seq<char>>|
        sorted_by(s, false) && s.no_duplicates() && s.to_set() == unknown_rules(c) && text == join(
            s,
            ", "@,
        )
}

fn copy_strings(v: &Vec<String>) -> (r: Vec<String>)
    ensures
        r@ == v@,
{
    let mut r: Vec<String> = Vec::new();
    let mut i: usize = 0;
    while i < v.len()
        invariant
            i <= v@.len(),
            r@ == v@.take(i as int),
        decreases v.len() - i,
    {
        r.push(v[i].clone());
        assert(r@ =~= v@.take(i + 1));
        i += 1;
    }
    assert(v@.take(v@.len() as int) == v@);
    r
}

/// The rules to run: those the configuration asks for, or an error listing the
/// ones that do not exist.
pub fn resolve_enabled_rule_ids(config: &Config) -> (r: Result<Vec<String>, ScanError>)
    ensures
        r is Ok <==> unknown_rules(config@).is_empty(),
        r matches Ok(v) ==> views(v@).to_set() == chosen_rules(config@).to_set(),
        r matches Err(e) ==> e is UnknownRules && lists_unknown(config@, e->UnknownRules_0@),
{
    broadcast use vstd::seq_lib::group_to_multiset_ensures;

    let ids = registered_rule_ids();
    let mut available: Vec<String> = Vec::new();
    let mut k: usize = 0;
    while k < ids.len()
        invariant
            k <= ids@.len(),
            ids@.map_values(|s: &'static str| s@) == rule_ids(),
            views(available@) == rule_ids().take(k as int),
        decreases ids.len() - k,
    {
        let ghost before = views(available@);
        available.push(ids[k].to_owned());
        assert(views(available@) =~= before.push(ids@[k as int]@));
        assert(rule_ids()[k as int] == ids@[k as int]@);
        assert(rule_ids().take(k + 1) =~= rule_ids().take(k as int).push(rule_ids()[k as int]));
        k += 1;
    }
    assert(rule_ids().take(ids@.len() as int) =~= rule_ids());
    let chosen = match &config.include_rules {
        Some(v) => copy_strings(v),
        None => copy_strings(&available),
    };
    assert(views(chosen@) == chosen_rules(config@));
    let ghost want = unknown_rules(config@);
    let mut unknown: Vec<String> = Vec::new();
    let mut i: usize = 0;
    while i < chosen.len()
        invariant
            i <= chosen@.len(),
            views(chosen@) == chosen_rules(config@),
            views(available@) == rule_ids(),
            want == unknown_rules(config@),
            views(unknown@).no_duplicates(),
            views(unknown@).to_set() == views(chosen@).take(i as int).to_set().difference(rule_ids().to_set()),
        decreases chosen.len() - i,
    {
        let x = chosen[i].as_str();
        let ghost prev = views(chosen@).take(i as int);
        assert(views(chosen@).take(i + 1) == prev.push(x@));
        proof {
            prev.lemma_push_to_set_commute(x@);
        }
        if !contains_str(&available, x) && !contains_str(&unknown, x) {
            let ghost before = views(unknown@);
            unknown.push(x.to_owned());
            proof {
                assert(views(unknown@) =~= before.push(x@));
                before.lemma_push_to_set_commute(x@);
                assert(views(unknown@).no_duplicates()) by {
                    assert forall|a: int, b: int| 0 <= a < b < views(unknown@).len() implies views(unknown@)[a] != views(unknown@)[b] by {
                        if b == before.len() {
                            assert(before.contains(before[a]));
                        }
                    }
                }
                assert(views(unknown@).to_set() =~= views(chosen@).take(i + 1).to_set().difference(rule_ids().to_set()));
            }
        } else {
            proof {
                assert(views(unknown@).to_set() =~= views(chosen@).take(i + 1).to_set().difference(rule_ids().to_set())) by {
                    if !rule_ids().contains(x@) {
                        assert(views(unknown@).to_set().contains(x@));
                    }
                }
            }
        }
        i += 1;
    }
    assert(views(chosen@).take(chosen@.len() as int) == views(chosen@));
    assert(views(unknown@).to_set() =~= want);
    if unknown.len() > 0 {
        let ghost before = views(unknown@);
        let sorted = sort_strings(unknown, false);
        proof {
            let s = views(sorted@);
            before.lemma_multiset_has_no_duplicates();
            assert forall|x: Seq<char>| s.to_multiset().contains(x) implies s.to_multiset().count(x) == 1 by {
                assert(before.to_multiset().contains(x));
            }
            s.lemma_multiset_has_no_duplicates_conv();
            assert(s.to_set() =~= before.to_set()) by {
                assert forall|x: Seq<char>| s.to_set().contains(x) <==> before.to_set().contains(x) by {
                    assert(s.contains(x) <==> s.to_multiset().count(x) > 0);
                    assert(before.contains(x) <==> before.to_multiset().count(x) > 0);
                }
            }
            assert(before[0] == views(unknown@)[0]);
            assert(want.contains(before[0]));
        }
        let joined = join_strings(&sorted, ", ");
        assert(lists_unknown(config@, joined@));
        return Err(ScanError::UnknownRules(joined));
    }
    proof {
        assert(views(unknown@).len() == 0);
        assert(want =~= Set::<Seq<char>>::empty());
        assert(views(chosen@).to_set() =~= chosen_rules(config@).to_set());
    }
    Ok(chosen)
}


/// The language a file is read as: `python` when its extension is `py` (ASCII
/// case aside), `text` otherwise.
pub open spec fn language_of(path: Seq<char>) -> Seq<char> {
    match extension(file_name(path)) {
        Some(e) => if eq_ignore_ascii_case(e, "py"@) {
            "python"@
        } else {
            "text"@
        },
        None => "text"@,
    }
}

/// The language a file is read as.
pub fn detect_language(path: &str) -> (r: String)
    ensures
        r@ == language_of(path@),
{
    let name = file_name_of(path);
    match extension_of(name.as_str()) {
        Some(e) => if str_eq_ignore_ascii_case(e.as_str(), "py") {
            "python".to_owned()
        } else {
            "text".to_owned()
        },
        None => "text".to_owned(),
    }
}

/// The context of the file at `path` with `lines`: its language, and the
/// functions the parser for that language finds.
pub open spec fn context_with(path: Seq<char>, lines: Seq<Seq<char>>) -> FileContextView {
    let language = language_of(path);
    FileContextView {
        path,
        lines,
        language,
        functions: if language == "python"@ {
            python_file_functions(path, lines)
        } else {
            text_functions(path, lines)
        },
    }
}

/// The context of the file at `path` with `lines`.
pub fn build_file_context(path: String, lines: Vec<String>) -> (r: FileContext)
    ensures
        r@ == context_with(path@, views(lines@)),
{
    let language = detect_language(path.as_str());
    let functions = if str_eq(language.as_str(), "python") {
        parse_python(path.as_str(), &lines)
    } else {
        parse_text(path.as_str(), &lines)
    };
    FileContext { path, lines, language, functions }
}

/// One file to scan: its path and its content as read.
#[derive(Debug, Clone)]
pub struct SourceFile {
    pub path: String,
    pub bytes: Vec<u8>,
}

/// The context of a file read as `bytes`: the bytes decoded as UTF-8 (invalid
/// sequences replaced) and split into lines.
pub open spec fn context_of(path: Seq<char>, bytes: Seq<u8>) -> FileContextView {
    context_with(path, lines(utf8_lossy(bytes)))
}

/// The context of a file read as `bytes`.
pub fn file_context_from_bytes(path: String, bytes: &[u8]) -> (r: FileContext)
    ensures
        r@ == context_of(path@, bytes@),
{
    let text = decode_utf8_lossy(bytes);
    let lines = lines_of(text.as_str());
    build_file_context(path, lines)
}


/// What the enabled per-file rules report for one file, rule by rule: large file,
/// large function, helper file name, exposed secrets, fallback defaults.
pub open spec fn per_file_findings(c: ConfigView, enabled: Set<Seq<char>>, ctx: FileContextView) -> Seq<FindingView> {
    (if enabled.contains(LARGE_FILE@) {
        large_file_findings(c, ctx)
    } else {
        Seq::empty()
    }) + (if enabled.contains(LARGE_FUNCTION@) {
        large_function_findings(c, ctx)
    } else {
        Seq::empty()
    }) + (if enabled.contains(HELPER_SPRAWL@) {
        helper_file_findings(ctx)
    } else {
        Seq::empty()
    }) + (if enabled.contains(EXPOSED_SECRETS@) {
        line_rule_findings(secret_rule(), ctx.path, ctx.lines)
    } else {
        Seq::empty()
    }) + (if enabled.contains(FALLBACK_DEFAULTS@) {
        line_rule_findings(fallback_rule(), ctx.path, ctx.lines)
    } else {
        Seq::empty()
    })
}

/// The per-file findings of all files, file by file.
pub open spec fn all_file_findings(c: ConfigView, enabled: Set<Seq<char>>, ctxs: Seq<FileContextView>) -> Seq<FindingView>
    decreases ctxs.len(),
{
    if ctxs.len() == 0 {
        Seq::empty()
    } else {
        all_file_findings(c, enabled, ctxs.drop_last()) + per_file_findings(c, enabled, ctxs.last())
    }
}

/// Everything the enabled rules report: the per-file findings, then duplicate
/// bodies, then versioned names.
pub open spec fn raw_findings(c: ConfigView, enabled: Set<Seq<char>>, ctxs: Seq<FileContextView>) -> Seq<FindingView> {
    all_file_findings(c, enabled, ctxs) + (if enabled.contains(DUPLICATE_FUNCTIONS@) {
        duplicate_findings(ctxs)
    } else {
        Seq::empty()
    }) + (if enabled.contains(HELPER_SPRAWL@) {
        variant_findings(ctxs)
    } else {
        Seq::empty()
    })
}

/// The findings of `fs` whose lower-cased severity is not excluded, in order.
pub open spec fn kept_findings(fs: Seq<FindingView>, excluded: Set<Seq<char>>) -> Seq<FindingView>
    decreases fs.len(),
{
    if fs.len() == 0 {
        Seq::empty()
    } else if excluded.contains(lowercase(fs.last().severity)) {
        kept_findings(fs.drop_last(), excluded)
    } else {
        kept_findings(fs.drop_last(), excluded).push(fs.last())
    }
}

/// No finding that is kept has an excluded severity (compared lower-cased), and
/// every finding whose severity is not excluded is kept.
pub proof fn lemma_kept_findings_exclude(fs: Seq<FindingView>, excluded: Set<Seq<char>>)
    ensures
        forall|i: int| 0 <= i < kept_findings(fs, excluded).len() ==> !excluded.contains(lowercase(#[trigger] kept_findings(fs, excluded)[i].severity)),
        forall|i: int| 0 <= i < fs.len() && !excluded.contains(lowercase(#[trigger] fs[i].severity)) ==> kept_findings(fs, excluded).contains(fs[i]),
    decreases fs.len(),
{
    if fs.len() > 0 {
        lemma_kept_findings_exclude(fs.drop_last(), excluded);
        let k = kept_findings(fs.drop_last(), excluded);
        assert forall|i: int| 0 <= i < fs.len() && !excluded.contains(lowercase(#[trigger] fs[i].severity)) implies kept_findings(fs, excluded).contains(fs[i]) by {
            if i < fs.len() - 1 {
                assert(fs.drop_last()[i] == fs[i]);
                let j = choose|j: int| 0 <= j < k.len() && k[j] == fs[i];
                assert(kept_findings(fs, excluded)[j] == fs[i]);
            } else {
                assert(kept_findings(fs, excluded)[k.len() as int] == fs[i]);
            }
        }
    }
}

/// With no severity excluded, every finding is kept, in order.
pub proof fn lemma_kept_findings_none_excluded(fs: Seq<FindingView>)
    ensures
        kept_findings(fs, Set::empty()) == fs,
    decreases fs.len(),
{
    if fs.len() > 0 {
        lemma_kept_findings_none_excluded(fs.drop_last());
        assert(fs.drop_last().push(fs.last()) =~= fs);
    }
}

/// When the rules resolve, every rule that runs is a registered one.
pub proof fn lemma_enabled_rules_registered(c: ConfigView)
    requires
        unknown_rules(c).is_empty(),
    ensures
        chosen_rules(c).to_set().subset_of(rule_ids().to_set()),
{
    assert forall|x: Seq<char>| chosen_rules(c).to_set().contains(x) implies rule_ids().to_set().contains(x) by {
        if !rule_ids().to_set().contains(x) {
            assert(unknown_rules(c).contains(x));
        }
    }
}

/// The contexts of the files to scan.
pub open spec fn scan_contexts(files: Seq<SourceFile>) -> Seq<FileContextView> {
    files.map_values(|f: SourceFile| context_of(f.path@, f.bytes@))
}

/// The findings a scan reports.
pub open spec fn scan_findings(c: ConfigView, files: Seq<SourceFile>) -> Seq<FindingView> {
    kept_findings(raw_findings(c, chosen_rules(c).to_set(), scan_contexts(files)), c.exclude_severities)
}

/// Every finding of `fs` comes from a rule in `enabled` that is registered.
pub open spec fn from_enabled(fs: Seq<FindingView>, enabled: Set<Seq<char>>) -> bool {
    forall|i: int| 0 <= i < fs.len() ==> {
        &&& enabled.contains((#[trigger] fs[i]).rule_id)
        &&& rule_ids().contains(fs[i].rule_id)
    }
}

proof fn lemma_from_enabled_concat(a: Seq<FindingView>, b: Seq<FindingView>, en: Set<Seq<char>>)
    requires
        from_enabled(a, en),
        from_enabled(b, en),
    ensures
        from_enabled(a + b, en),
{
    assert forall|i: int| 0 <= i < (a + b).len() implies en.contains((#[trigger] (a + b)[i]).rule_id)
        && rule_ids().contains((a + b)[i].rule_id) by {
        if i < a.len() {
            assert((a + b)[i] == a[i]);
        } else {
            assert((a + b)[i] == b[i - a.len()]);
        }
    }
}

proof fn lemma_from_enabled_part(fs: Seq<FindingView>, id: Seq<char>, k: int, en: Set<Seq<char>>)
    requires
        all_from_rule(fs, id),
        0 <= k < rule_ids().len(),
        rule_ids()[k] == id,
        en.contains(id),
    ensures
        from_enabled(fs, en),
{
    assert forall|i: int| 0 <= i < fs.len() implies en.contains((#[trigger] fs[i]).rule_id)
        && rule_ids().contains(fs[i].rule_id) by {
        assert(fs[i].rule_id == rule_ids()[k]);
    }
}

proof fn lemma_per_file_from_enabled(c: ConfigView, en: Set<Seq<char>>, ctx: FileContextView)
    ensures
        from_enabled(per_file_findings(c, en, ctx), en),
{
    let e = Seq::<FindingView>::empty();
    let p0 = if en.contains(LARGE_FILE@) { large_file_findings(c, ctx) } else { e };
    let p1 = if en.contains(LARGE_FUNCTION@) { large_function_findings(c, ctx) } else { e };
    let p2 = if en.contains(HELPER_SPRAWL@) { helper_file_findings(ctx) } else { e };
    let p3 = if en.contains(EXPOSED_SECRETS@) { line_rule_findings(secret_rule(), ctx.path, ctx.lines) } else { e };
    let p4 = if en.contains(FALLBACK_DEFAULTS@) { line_rule_findings(fallback_rule(), ctx.path, ctx.lines) } else { e };
    if en.contains(LARGE_FILE@) {
        lemma_large_file_rule_id(c, ctx);
        lemma_from_enabled_part(p0, LARGE_FILE@, 0, en);
    }
    if en.contains(LARGE_FUNCTION@) {
        lemma_large_function_rule_id(c, ctx.path, ctx.functions);
        lemma_from_enabled_part(p1, LARGE_FUNCTION@, 1, en);
    }
    if en.contains(HELPER_SPRAWL@) {
        lemma_helper_file_rule_id(ctx);
        lemma_from_enabled_part(p2, HELPER_SPRAWL@, 3, en);
    }
    if en.contains(EXPOSED_SECRETS@) {
        lemma_line_rule_id(secret_rule(), ctx.path, ctx.lines);
        lemma_from_enabled_part(p3, EXPOSED_SECRETS@, 4, en);
    }
    if en.contains(FALLBACK_DEFAULTS@) {
        lemma_line_rule_id(fallback_rule(), ctx.path, ctx.lines);
        lemma_from_enabled_part(p4, FALLBACK_DEFAULTS@, 5, en);
    }
    lemma_from_enabled_concat(p0, p1, en);
    lemma_from_enabled_concat(p0 + p1, p2, en);
    lemma_from_enabled_concat(p0 + p1 + p2, p3, en);
    lemma_from_enabled_concat(p0 + p1 + p2 + p3, p4, en);
}

proof fn lemma_all_files_from_enabled(c: ConfigView, en: Set<Seq<char>>, ctxs: Seq<FileContextView>)
    ensures
        from_enabled(all_file_findings(c, en, ctxs), en),
    decreases ctxs.len(),
{
    if ctxs.len() > 0 {
        lemma_all_files_from_enabled(c, en, ctxs.drop_last());
        lemma_per_file_from_enabled(c, en, ctxs.last());
        lemma_from_enabled_concat(
            all_file_findings(c, en, ctxs.drop_last()),
            per_file_findings(c, en, ctxs.last()),
            en,
        );
    }
}

proof fn lemma_raw_from_enabled(c: ConfigView, en: Set<Seq<char>>, ctxs: Seq<FileContextView>)
    ensures
        from_enabled(raw_findings(c, en, ctxs), en),
{
    let e = Seq::<FindingView>::empty();
    let a = all_file_findings(c, en, ctxs);
    let d = if en.contains(DUPLICATE_FUNCTIONS@) { duplicate_findings(ctxs) } else { e };
    let v = if en.contains(HELPER_SPRAWL@) { variant_findings(ctxs) } else { e };
    lemma_all_files_from_enabled(c, en, ctxs);
    if en.contains(DUPLICATE_FUNCTIONS@) {
        let fs = crate::rules::duplicate_functions::eligible(crate::models::all_functions(ctxs));
        lemma_duplicate_rule_id(fs, crate::grouping::distinct_keys(crate::rules::duplicate_functions::hashes(fs)));
        lemma_from_enabled_part(d, DUPLICATE_FUNCTIONS@, 2, en);
    }
    if en.contains(HELPER_SPRAWL@) {
        let fs = crate::models::all_functions(ctxs);
        lemma_variant_rule_id(
            fs,
            crate::grouping::distinct_keys(crate::rules::helper_sprawl::base_names(fs)),
        );
        lemma_from_enabled_part(v, HELPER_SPRAWL@, 3, en);
    }
    lemma_from_enabled_concat(a, d, en);
    lemma_from_enabled_concat(a + d, v, en);
}

/// Every finding kept is one of the findings it was kept from.
proof fn lemma_kept_findings_from(fs: Seq<FindingView>, excluded: Set<Seq<char>>)
    ensures
        forall|i: int| 0 <= i < kept_findings(fs, excluded).len() ==> fs.contains(
            #[trigger] kept_findings(fs, excluded)[i],
        ),
    decreases fs.len(),
{
    if fs.len() > 0 {
        let p = fs.drop_last();
        lemma_kept_findings_from(p, excluded);
        let k = kept_findings(p, excluded);
        assert forall|i: int| 0 <= i < kept_findings(fs, excluded).len() implies fs.contains(
            #[trigger] kept_findings(fs, excluded)[i],
        ) by {
            if i < k.len() {
                assert(kept_findings(fs, excluded)[i] == k[i]);
                let j = choose|j: int| 0 <= j < p.len() && p[j] == k[i];
                assert(fs[j] == p[j]);
            } else {
                assert(kept_findings(fs, excluded)[i] == fs[fs.len() - 1]);
            }
        }
    }
}

/// Every finding a scan reports comes from a rule that the settings ask for (one
/// of the listed ids when the settings list some) and that is registered, and its
/// severity, lower-cased, is not excluded.
pub proof fn lemma_scan_findings_allowed(c: ConfigView, files: Seq<SourceFile>)
    ensures
        forall|i: int| 0 <= i < scan_findings(c, files).len() ==> {
            &&& chosen_rules(c).contains((#[trigger] scan_findings(c, files)[i]).rule_id)
            &&& rule_ids().contains(scan_findings(c, files)[i].rule_id)
            &&& (c.include_rules matches Some(v) ==> v.contains(scan_findings(c, files)[i].rule_id))
            &&& !c.exclude_severities.contains(lowercase(scan_findings(c, files)[i].severity))
        },
{
    let en = chosen_rules(c).to_set();
    let raw = raw_findings(c, en, scan_contexts(files));
    lemma_raw_from_enabled(c, en, scan_contexts(files));
    lemma_kept_findings_from(raw, c.exclude_severities);
    lemma_kept_findings_exclude(raw, c.exclude_severities);
    assert forall|i: int| 0 <= i < scan_findings(c, files).len() implies {
        &&& chosen_rules(c).contains((#[trigger] scan_findings(c, files)[i]).rule_id)
        &&& rule_ids().contains(scan_findings(c, files)[i].rule_id)
        &&& (c.include_rules matches Some(v) ==> v.contains(scan_findings(c, files)[i].rule_id))
        &&& !c.exclude_severities.contains(lowercase(scan_findings(c, files)[i].severity))
    } by {
        let f = scan_findings(c, files)[i];
        let j = choose|j: int| 0 <= j < raw.len() && raw[j] == f;
        assert(en.contains(raw[j].rule_id));
    }
}

proof fn lemma_views_append(a: Seq<Finding>, b: Seq<Finding>)
    ensures
        finding_views(a + b) == finding_views(a) + finding_views(b),
{
    assert(finding_views(a + b) =~= finding_views(a) + finding_views(b));
}

/// Appends `more` to `all`.
fn extend(all: &mut Vec<Finding>, more: Vec<Finding>)
    ensures
        finding_views(final(all)@) == finding_views(old(all)@) + finding_views(more@),
{
    let mut more = more;
    let ghost a = all@;
    let ghost b = more@;
    all.append(&mut more);
    proof {
        lemma_views_append(a, b);
    }
}

/// The findings of the enabled per-file rules for one file.
fn run_file_rules(ctx: &FileContext, config: &Config, enabled: &Vec<String>) -> (r: Vec<Finding>)
    ensures
        finding_views(r@) == per_file_findings(config@, views(enabled@).to_set(), ctx@),
{
    let ghost en = views(enabled@).to_set();
    let mut out: Vec<Finding> = Vec::new();
    let large_file = LargeFileRule::new(config);
    let large_fn = LargeFunctionRule::new(config);
    proof {
        assert forall|id: Seq<char>| views(enabled@).contains(id) <==> #[trigger] en.contains(id) by {}
    }
    let ghost s0 = finding_views(out@);
    if contains_str(enabled, LARGE_FILE) {
        extend(&mut out, large_file.run(ctx));
    }
    let ghost s1 = finding_views(out@);
    assert(s1 == s0 + (if en.contains(LARGE_FILE@) { large_file_findings(config@, ctx@) } else { Seq::empty() }));
    if contains_str(enabled, LARGE_FUNCTION) {
        extend(&mut out, large_fn.run(ctx));
    }
    let ghost s2 = finding_views(out@);
    assert(s2 == s1 + (if en.contains(LARGE_FUNCTION@) { large_function_findings(config@, ctx@) } else { Seq::empty() }));
    if contains_str(enabled, HELPER_SPRAWL) {
        extend(&mut out, HelperSprawlRule::run(ctx));
    }
    let ghost s3 = finding_views(out@);
    assert(s3 == s2 + (if en.contains(HELPER_SPRAWL@) { helper_file_findings(ctx@) } else { Seq::empty() }));
    if contains_str(enabled, EXPOSED_SECRETS) {
        extend(&mut out, ExposedSecretsRule::run(ctx));
    }
    let ghost s4 = finding_views(out@);
    assert(s4 == s3 + (if en.contains(EXPOSED_SECRETS@) { line_rule_findings(secret_rule(), ctx@.path, ctx@.lines) } else { Seq::empty() }));
    if contains_str(enabled, FALLBACK_DEFAULTS) {
        extend(&mut out, FallbackDefaultsRule::run(ctx));
    }
    let ghost s5 = finding_views(out@);
    assert(s5 == s4 + (if en.contains(FALLBACK_DEFAULTS@) { line_rule_findings(fallback_rule(), ctx@.path, ctx@.lines) } else { Seq::empty() }));
    assert(s0 =~= Seq::<FindingView>::empty());
    assert(s5 =~= per_file_findings(config@, en, ctx@));
    out
}

/// Scans `files` with the settings `config`: the rules it asks for run over every
/// file, then across files; findings with an excluded severity are dropped; the
/// total score is their score sum; the scan passes when the total is at most the
/// fail threshold. An unknown rule id in the settings is an error.
pub fn scan(files: &Vec<SourceFile>, config: &Config) -> (r: Result<ScanResult, ScanError>)
    ensures
        match r {
            Ok(res) => {
                &&& unknown_rules(config@).is_empty()
                &&& finding_views(res.findings@) == scan_findings(config@, files@)
                &&& res.total_score == wrapped_score_sum(res.findings@)
                &&& res.passed == (res.total_score <= config.fail_threshold)
                &&& res.files_scanned == files@.len()
            },
            Err(e) => {
                &&& !unknown_rules(config@).is_empty()
                &&& e is UnknownRules
                &&& lists_unknown(config@, e->UnknownRules_0@)
            },
        },
{
    let enabled = match resolve_enabled_rule_ids(config) {
        Ok(v) => v,
        Err(e) => return Err(e),
    };
    let ghost en = views(enabled@).to_set();
    assert(en == chosen_rules(config@).to_set());
    let ghost want = scan_contexts(files@);
    let mut contexts: Vec<FileContext> = Vec::new();
    let mut i: usize = 0;
    while i < files.len()
        invariant
            i <= files@.len(),
            want == scan_contexts(files@),
            context_views(contexts@) == want.take(i as int),
        decreases files.len() - i,
    {
        let f = &files[i];
        let ctx = file_context_from_bytes(f.path.clone(), f.bytes.as_slice());
        let ghost before = context_views(contexts@);
        contexts.push(ctx);
        assert(context_views(contexts@) =~= before.push(ctx@));
        assert(want.take(i + 1) =~= want.take(i as int).push(want[i as int]));
        i += 1;
    }
    assert(want.take(files@.len() as int) =~= want);
    let mut findings: Vec<Finding> = Vec::new();
    let mut j: usize = 0;
    while j < contexts.len()
        invariant
            j <= contexts@.len(),
            context_views(contexts@) == want,
            en == views(enabled@).to_set(),
            finding_views(findings@) == all_file_findings(config@, en, want.take(j as int)),
        decreases contexts.len() - j,
    {
        let more = run_file_rules(&contexts[j], config, &enabled);
        extend(&mut findings, more);
        assert(want.take(j + 1).drop_last() == want.take(j as int));
        assert(want.take(j + 1).last() == contexts@[j as int]@);
        j += 1;
    }
    assert(want.take(contexts@.len() as int) =~= want);
    let ghost a = finding_views(findings@);
    if contains_str(&enabled, DUPLICATE_FUNCTIONS) {
        extend(&mut findings, DuplicateFunctionsRule::run_cross_file(&contexts));
    }
    let ghost b = finding_views(findings@);
    assert(b == a + (if en.contains(DUPLICATE_FUNCTIONS@) { duplicate_findings(want) } else { Seq::empty() }));
    if contains_str(&enabled, HELPER_SPRAWL) {
        extend(&mut findings, HelperSprawlRule::run_cross_file(&contexts));
    }
    let ghost raw = finding_views(findings@);
    assert(raw == b + (if en.contains(HELPER_SPRAWL@) { variant_findings(want) } else { Seq::empty() }));
    assert(raw == raw_findings(config@, en, want));
    let mut kept: Vec<Finding> = Vec::new();
    let mut k: usize = 0;
    while k < findings.len()
        invariant
            k <= findings@.len(),
            raw == finding_views(findings@),
            finding_views(kept@) == kept_findings(raw.take(k as int), config@.exclude_severities),
        decreases findings.len() - k,
    {
        let f = &findings[k];
        assert(raw.take(k + 1).drop_last() == raw.take(k as int));
        assert(raw.take(k + 1).last() == f@);
        let lower = to_lowercase(f.severity.as_str());
        let excluded = contains_str(&config.exclude_severities, lower.as_str());
        assert(excluded == config@.exclude_severities.contains(lower@));
        if !excluded {
            let ghost before = finding_views(kept@);
            kept.push(f.clone());
            assert(finding_views(kept@) =~= before.push(f@));
        }
        k += 1;
    }
    assert(raw.take(findings@.len() as int) =~= raw);
    let total_score = compute_score(kept.as_slice());
    let passed = total_score <= config.fail_threshold;
    Ok(ScanResult { findings: kept, total_score, files_scanned: contexts.len(), passed })
}

} // verus!
