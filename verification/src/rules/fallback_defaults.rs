//! Silent primitive defaults for environment lookups and catch-all handlers.

use vstd::prelude::*;
use crate::models::{finding_views, FileContext, Finding};
use crate::rules::line_rule::{compile_all, line_rule_findings, pair_views, run_line_rule, LineRuleSpec};
use crate::text::views;

verus! {

/// The id of this rule.
pub const FALLBACK_DEFAULTS: &'static str = "fallback-defaults";

/// The labelled expressions of this rule: (label, source).
pub open spec fn fallback_pattern_list() -> Seq<(Seq<char>, Seq<char>)> {
    seq![
        ("Python env fallback to primitive sentinel"@, r#"\bos\.(?:getenv|environ\.get|getenv)\s*\(\s*['"][A-Z0-9_]+['"]\s*,\s*(?:None|True|False|0|1|['"]{2}|\[\]|\{\})\s*\)"#@),
        ("dotenv env fallback to primitive sentinel"@, r#"\bdotenv\.get\s*\(\s*['"][A-Z0-9_]+['"]\s*,\s*(?:None|True|False|0|1|['"]{2}|\[\]|\{\})\s*\)"#@),
        ("Node process.env logical-or primitive fallback"@, r#"\bprocess\.env\.[A-Z0-9_]+\s*\|\|\s*(?:null|undefined|true|false|0|1|['"]{2}|\[\]|\{\})"#@),
        ("Node process.env nullish primitive fallback"@, r#"\bprocess\.env\.[A-Z0-9_]+\s*\?\?\s*(?:null|undefined|true|false|0|1|['"]{2}|\[\]|\{\})"#@),
        ("Python catch-all returns primitive"@, r#"\bexcept(?:\s+(?:Exception|BaseException))?(?:\s+as\s+\w+)?\s*:\s*return\s+(?:None|True|False|0|1|['"]{2}|\[\]|\{\})"#@),
        ("JS catch-all returns primitive"@, r#"\bcatch\s*(?:\(\s*\w+\s*\))?\s*\{\s*return\s*(?:null|undefined|true|false|0|1|['"]{2}|\[\]|\{\})\s*;?\s*\}"#@),
    ]
}

/// The labelled expressions of this rule.
pub fn fallback_patterns() -> (r: Vec<(&'static str, &'static str)>)
    ensures
        pair_views(r@) == fallback_pattern_list(),
{
    let r = vec![
        ("Python env fallback to primitive sentinel", r#"\bos\.(?:getenv|environ\.get|getenv)\s*\(\s*['"][A-Z0-9_]+['"]\s*,\s*(?:None|True|False|0|1|['"]{2}|\[\]|\{\})\s*\)"#),
        ("dotenv env fallback to primitive sentinel", r#"\bdotenv\.get\s*\(\s*['"][A-Z0-9_]+['"]\s*,\s*(?:None|True|False|0|1|['"]{2}|\[\]|\{\})\s*\)"#),
        ("Node process.env logical-or primitive fallback", r#"\bprocess\.env\.[A-Z0-9_]+\s*\|\|\s*(?:null|undefined|true|false|0|1|['"]{2}|\[\]|\{\})"#),
        ("Node process.env nullish primitive fallback", r#"\bprocess\.env\.[A-Z0-9_]+\s*\?\?\s*(?:null|undefined|true|false|0|1|['"]{2}|\[\]|\{\})"#),
        ("Python catch-all returns primitive", r#"\bexcept(?:\s+(?:Exception|BaseException))?(?:\s+as\s+\w+)?\s*:\s*return\s+(?:None|True|False|0|1|['"]{2}|\[\]|\{\})"#),
        ("JS catch-all returns primitive", r#"\bcatch\s*(?:\(\s*\w+\s*\))?\s*\{\s*return\s*(?:null|undefined|true|false|0|1|['"]{2}|\[\]|\{\})\s*;?\s*\}"#),
    ];
    assert(pair_views(r@) =~= fallback_pattern_list());
    r
}

/// The fallback rule: medium severity, score 4.
pub open spec fn fallback_rule() -> LineRuleSpec {
    LineRuleSpec {
        rule_id: FALLBACK_DEFAULTS@,
        severity: "medium"@,
        score: 4,
        prefix: "Potential slop fallback detected ("@,
        suffix: "). Avoid silent primitive defaults; preserve failure semantics or add observability."@,
        patterns: fallback_pattern_list(),
    }
}

/// Flags lines that fall back to a primitive value where a failure would be hidden.
pub struct FallbackDefaultsRule;

impl FallbackDefaultsRule {
    /// The findings for one file: one per line that matches any of the rule's
    /// expressions and carries no suppression comment for the rule.
    pub fn run(ctx: &FileContext) -> (r: Vec<Finding>)
        ensures
            finding_views(r@) == line_rule_findings(fallback_rule(), ctx.path@, views(ctx.lines@)),
    {
        let compiled = compile_all(&fallback_patterns());
        run_line_rule(
            ctx,
            FALLBACK_DEFAULTS,
            "medium",
            4,
            "Potential slop fallback detected (",
            "). Avoid silent primitive defaults; preserve failure semantics or add observability.",
            &compiled,
            Ghost(fallback_rule()),
        )
    }
}

impl FallbackDefaultsRule {
    /// The id of this rule.
    pub const RULE_ID: &'static str = FALLBACK_DEFAULTS;
}

} // verus!
