//! Files with too many lines.

use vstd::prelude::*;
use crate::config::{Config, ConfigView};
use crate::models::{all_from_rule, finding_views, FileContext, FileContextView, Finding, FindingView};
use crate::paths::{file_name, file_name_of};
use crate::text::{
    any_eq_ignore_ascii_case, fmt_i64, lemma_contains_ignore_case_to_set,
    set_contains_ignore_ascii_case, signed_decimal, views,
};
use crate::walker::{scan_suffix, suffix_of};

verus! {

/// The id of this rule.
pub const LARGE_FILE: &'static str = "large-file";

/// The message for a file of `count` lines over `threshold`, at `level`.
pub open spec fn large_file_message(count: i32, level: Seq<char>, threshold: i32) -> Seq<char> {
    "File is "@ + signed_decimal(count as int) + " lines long ("@ + level + " threshold: "@
        + signed_decimal(threshold as int) + ")"@
}

/// What the rule reports for one file: nothing unless the file's suffix is one
/// of the large-file extensions; then a high finding (score 10) at or over the
/// high threshold, else a medium one (score 5) at or over the warning threshold.
/// The line count is the number of lines as an `i32`.
pub open spec fn large_file_findings(c: ConfigView, ctx: FileContextView) -> Seq<FindingView> {
    let count = ctx.lines.len() as i32;
    if !set_contains_ignore_ascii_case(c.large_file_extensions, scan_suffix(file_name(ctx.path))) {
        Seq::empty()
    } else if count >= c.max_file_lines_high {
        seq![
            FindingView {
                rule_id: LARGE_FILE@,
                severity: "high"@,
                file_path: ctx.path,
                line_start: None,
                line_end: None,
                message: large_file_message(count, "high"@, c.max_file_lines_high),
                score: 10,
            },
        ]
    } else if count >= c.max_file_lines_warning {
        seq![
            FindingView {
                rule_id: LARGE_FILE@,
                severity: "medium"@,
                file_path: ctx.path,
                line_start: None,
                line_end: None,
                message: large_file_message(count, "warning"@, c.max_file_lines_warning),
                score: 5,
            },
        ]
    } else {
        Seq::empty()
    }
}

fn message(count: i32, level: &str, threshold: i32) -> (r: String)
    ensures
        r@ == large_file_message(count, level@, threshold),
{
    let mut m = "File is ".to_owned();
    m.append(fmt_i64(count as i64).as_str());
    m.append(" lines long (");
    m.append(level);
    m.append(" threshold: ");
    m.append(fmt_i64(threshold as i64).as_str());
    m.append(")");
    m
}

/// Flags files whose line count reaches the configured thresholds.
pub struct LargeFileRule<'a> {
    config: &'a Config,
}

impl<'a> LargeFileRule<'a> {
    /// The settings this rule runs with.
    pub closed spec fn config(&self) -> ConfigView {
        self.config@
    }

    /// The rule with the given settings.
    pub fn new(config: &'a Config) -> (r: Self)
        ensures
            r.config() == config@,
    {
        Self { config }
    }

    /// The findings for one file.
    pub fn run(&self, ctx: &FileContext) -> (r: Vec<Finding>)
        ensures
            finding_views(r@) == large_file_findings(self.config(), ctx@),
    {
        let name = file_name_of(ctx.path.as_str());
        let suffix = suffix_of(name.as_str());
        proof {
            lemma_contains_ignore_case_to_set(views(self.config.large_file_extensions@), suffix@);
        }
        if !any_eq_ignore_ascii_case(&self.config.large_file_extensions, suffix.as_str()) {
            return Vec::new();
        }
        let count = ctx.lines.len() as i32;
        if count >= self.config.max_file_lines_high {
            let m = message(count, "high", self.config.max_file_lines_high);
            let f = Finding::make(LARGE_FILE, "high", ctx.path.as_str(), None, None, m, 10);
            let r = vec![f];
            assert(finding_views(r@) =~= large_file_findings(self.config(), ctx@));
            return r;
        }
        if count >= self.config.max_file_lines_warning {
            let m = message(count, "warning", self.config.max_file_lines_warning);
            let f = Finding::make(LARGE_FILE, "medium", ctx.path.as_str(), None, None, m, 5);
            let r = vec![f];
            assert(finding_views(r@) =~= large_file_findings(self.config(), ctx@));
            return r;
        }
        let r = Vec::new();
        assert(finding_views(r@) =~= large_file_findings(self.config(), ctx@));
        r
    }
}

impl LargeFileRule<'_> {
    /// The id of this rule.
    pub const RULE_ID: &'static str = LARGE_FILE;
}

/// Every finding of the rule carries its id.
pub proof fn lemma_large_file_rule_id(c: ConfigView, ctx: FileContextView)
    ensures
        all_from_rule(large_file_findings(c, ctx), LARGE_FILE@),
{
}

/// The rule looks only at how many lines a file has, whatever they hold: two files
/// at the same path with the same number of lines (blank ones counted like any
/// other) get the same findings.
pub proof fn lemma_large_file_counts_all_lines(c: ConfigView, a: FileContextView, b: FileContextView)
    requires
        a.path == b.path,
        a.lines.len() == b.lines.len(),
    ensures
        large_file_findings(c, a) == large_file_findings(c, b),
{
}

/// A file with a large-file extension and `n` lines, blank ones included, with `n`
/// at or over the warning or the high threshold, gets exactly one finding, which
/// names `n`: high (score 10) at or over the high threshold, else medium (score 5).
/// Under both thresholds it gets none.
pub proof fn lemma_large_file_names_line_count(c: ConfigView, ctx: FileContextView)
    requires
        ctx.lines.len() <= i32::MAX,
        set_contains_ignore_ascii_case(c.large_file_extensions, scan_suffix(file_name(ctx.path))),
    ensures
        ctx.lines.len() >= c.max_file_lines_high || ctx.lines.len() >= c.max_file_lines_warning ==> {
            let r = large_file_findings(c, ctx);
            &&& r.len() == 1
            &&& r[0].rule_id == LARGE_FILE@
            &&& r[0].file_path == ctx.path
        },
        ctx.lines.len() >= c.max_file_lines_high ==> {
            let r = large_file_findings(c, ctx);
            &&& r[0].severity == "high"@
            &&& r[0].score == 10
            &&& r[0].message == "File is "@ + signed_decimal(ctx.lines.len() as int) + " lines long ("@ + "high"@ + " threshold: "@
                + signed_decimal(c.max_file_lines_high as int) + ")"@
        },
        c.max_file_lines_warning <= ctx.lines.len() < c.max_file_lines_high ==> {
            let r = large_file_findings(c, ctx);
            &&& r[0].severity == "medium"@
            &&& r[0].score == 5
            &&& r[0].message == "File is "@ + signed_decimal(ctx.lines.len() as int) + " lines long ("@ + "warning"@ + " threshold: "@
                + signed_decimal(c.max_file_lines_warning as int) + ")"@
        },
        ctx.lines.len() < c.max_file_lines_high && ctx.lines.len() < c.max_file_lines_warning ==> large_file_findings(c, ctx).len() == 0,
{
    let n = ctx.lines.len();
    assert((n as i32) as int == n as int);
}

/// A file whose suffix is not one of the large-file extensions (ASCII case aside)
/// gets no finding, however long it is.
pub proof fn lemma_large_file_other_extensions(c: ConfigView, ctx: FileContextView)
    requires
        !set_contains_ignore_ascii_case(c.large_file_extensions, scan_suffix(file_name(ctx.path))),
    ensures
        large_file_findings(c, ctx).len() == 0,
{
}

} // verus!
