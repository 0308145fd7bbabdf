//! Functions with too many lines.

use vstd::prelude::*;
use crate::config::{Config, ConfigView};
use crate::models::{all_from_rule, finding_views, function_views, FileContext, FileContextView, Finding, FindingView, FunctionView};
use crate::text::{fmt_i64, signed_decimal};

verus! {

/// The id of this rule.
pub const LARGE_FUNCTION: &'static str = "large-function";

/// The number of lines a function spans, `line_end - line_start + 1`, computed in
/// `i32` as a release build does: the line numbers are cast to `i32` and the
/// arithmetic wraps around.
pub open spec fn span_length(line_start: u32, line_end: u32) -> i32 {
    vstd::wrapping::i32_specs::wrapping_add(
        vstd::wrapping::i32_specs::wrapping_sub(line_end as i32, line_start as i32),
        1,
    )
}

/// The length of a function's span.
pub fn span_len(line_start: u32, line_end: u32) -> (r: i32)
    ensures
        r == span_length(line_start, line_end),
{
    (line_end as i32).wrapping_sub(line_start as i32).wrapping_add(1)
}

/// The message for function `name` of `length` lines over `threshold`, at `level`.
pub open spec fn large_function_message(name: Seq<char>, length: i32, level: Seq<char>, threshold: i32) -> Seq<char> {
    "Function '"@ + name + "' is "@ + signed_decimal(length as int) + " lines long ("@ + level
        + " threshold: "@ + signed_decimal(threshold as int) + ")"@
}

/// What the rule reports for one function of the file at `path`: a high finding
/// (score 10) at or over the high threshold, else a medium one (score 5) at or over
/// the warning threshold, else nothing.
pub open spec fn function_finding(c: ConfigView, path: Seq<char>, f: FunctionView) -> Seq<FindingView> {
    let length = span_length(f.line_start, f.line_end);
    if length >= c.max_function_lines_high {
        seq![
            FindingView {
                rule_id: LARGE_FUNCTION@,
                severity: "high"@,
                file_path: path,
                line_start: Some(f.line_start),
                line_end: Some(f.line_end),
                message: large_function_message(f.name, length, "high"@, c.max_function_lines_high),
                score: 10,
            },
        ]
    } else if length >= c.max_function_lines_warning {
        seq![
            FindingView {
                rule_id: LARGE_FUNCTION@,
                severity: "medium"@,
                file_path: path,
                line_start: Some(f.line_start),
                line_end: Some(f.line_end),
                message: large_function_message(
                    f.name,
                    length,
                    "warning"@,
                    c.max_function_lines_warning,
                ),
                score: 5,
            },
        ]
    } else {
        Seq::empty()
    }
}

/// What the rule reports for the functions `fs` of the file at `path`, in order.
pub open spec fn functions_findings(c: ConfigView, path: Seq<char>, fs: Seq<FunctionView>) -> Seq<FindingView>
    decreases fs.len(),
{
    if fs.len() == 0 {
        Seq::empty()
    } else {
        functions_findings(c, path, fs.drop_last()) + function_finding(c, path, fs.last())
    }
}

/// What the rule reports for one file.
pub open spec fn large_function_findings(c: ConfigView, ctx: FileContextView) -> Seq<FindingView> {
    functions_findings(c, ctx.path, ctx.functions)
}

fn message(name: &str, length: i32, level: &str, threshold: i32) -> (r: String)
    ensures
        r@ == large_function_message(name@, length, level@, threshold),
{
    let mut m = "Function '".to_owned();
    m.append(name);
    m.append("' is ");
    m.append(fmt_i64(length as i64).as_str());
    m.append(" lines long (");
    m.append(level);
    m.append(" threshold: ");
    m.append(fmt_i64(threshold as i64).as_str());
    m.append(")");
    m
}

/// Flags functions whose line span reaches the configured thresholds.
pub struct LargeFunctionRule<'a> {
    config: &'a Config,
}

impl<'a> LargeFunctionRule<'a> {
    /// The settings this rule runs with.
    pub closed spec fn config(&self) -> ConfigView {
        self.config@
    }

    /// The rule with the given settings.
    pub fn new(config: &'a Config) -> (r: Self)
        ensures
            r.config() == config@,
    {
        Self { config }
    }

    /// The findings for one file.
    pub fn run(&self, ctx: &FileContext) -> (r: Vec<Finding>)
        ensures
            finding_views(r@) == large_function_findings(self.config(), ctx@),
    {
        let mut findings: Vec<Finding> = Vec::new();
        let ghost fs = function_views(ctx.functions@);
        let mut i: usize = 0;
        while i < ctx.functions.len()
            invariant
                i <= ctx.functions@.len(),
                fs == function_views(ctx.functions@),
                finding_views(findings@) == functions_findings(self.config(), ctx.path@, fs.take(i as int)),
            decreases ctx.functions.len() - i,
        {
            let f = &ctx.functions[i];
            assert(fs.take(i + 1).drop_last() == fs.take(i as int));
            assert(fs[i as int] == f@);
            let length = span_len(f.line_start, f.line_end);
            let ghost before = finding_views(findings@);
            if length >= self.config.max_function_lines_high {
                let m = message(f.name.as_str(), length, "high", self.config.max_function_lines_high);
                let x = Finding::make(LARGE_FUNCTION, "high", ctx.path.as_str(), Some(f.line_start), Some(f.line_end), m, 10);
                findings.push(x);
                assert(finding_views(findings@) =~= before + function_finding(self.config(), ctx.path@, f@));
            } else if length >= self.config.max_function_lines_warning {
                let m = message(f.name.as_str(), length, "warning", self.config.max_function_lines_warning);
                let x = Finding::make(LARGE_FUNCTION, "medium", ctx.path.as_str(), Some(f.line_start), Some(f.line_end), m, 5);
                findings.push(x);
                assert(finding_views(findings@) =~= before + function_finding(self.config(), ctx.path@, f@));
            } else {
                assert(finding_views(findings@) =~= before + function_finding(self.config(), ctx.path@, f@));
            }
            i += 1;
        }
        assert(fs.take(ctx.functions@.len() as int) == fs);
        findings
    }
}

impl LargeFunctionRule<'_> {
    /// The id of this rule.
    pub const RULE_ID: &'static str = LARGE_FUNCTION;
}

/// Every finding of the rule carries its id.
pub proof fn lemma_large_function_rule_id(c: ConfigView, path: Seq<char>, fs: Seq<FunctionView>)
    ensures
        all_from_rule(functions_findings(c, path, fs), LARGE_FUNCTION@),
    decreases fs.len(),
{
    if fs.len() > 0 {
        lemma_large_function_rule_id(c, path, fs.drop_last());
    }
}

} // verus!
