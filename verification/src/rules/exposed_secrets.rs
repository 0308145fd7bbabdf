//! Credentials written into source.

use vstd::prelude::*;
use crate::models::{finding_views, FileContext, Finding};
use crate::rules::line_rule::{compile_all, line_rule_findings, pair_views, run_line_rule, LineRuleSpec};
use crate::text::views;

verus! {

/// The id of this rule.
pub const EXPOSED_SECRETS: &'static str = "exposed-secrets";

/// The labelled expressions of this rule: (label, source).
pub open spec fn secret_pattern_list() -> Seq<(Seq<char>, Seq<char>)> {
    seq![
        ("PEM private key header"@, r"-----BEGIN [A-Z0-9 +\-]+PRIVATE KEY-----"@),
        ("AWS access key id"@, r"\b(?:AKIA|ASIA|AROA)[0-9A-Z]{16}\b"@),
        ("GitHub personal access token (classic)"@, r"\bghp_[a-zA-Z0-9]{36,}\b"@),
        ("GitHub fine-grained PAT"@, r"github_pat_[a-zA-Z0-9_]{20,}"@),
        ("Slack bot/user token"@, r"xox[bpa]-[0-9]{10,13}-[0-9]{10,13}-[a-zA-Z0-9]{24,}"@),
        ("Stripe secret key"@, r"\bsk_(?:live|test)_[0-9a-zA-Z]{20,}\b"@),
        ("OpenAI API key (sk-proj-)"@, r"\bsk-proj-[a-zA-Z0-9_-]{20,}\b"@),
        ("OpenAI-style API key (long sk- prefix)"@, r"\bsk-[a-zA-Z0-9]{45,}\b"@),
        ("Anthropic API key"@, r"\bsk-ant-api03-[a-zA-Z0-9_-]{20,}\b"@),
        ("Google API key"@, r"\bAIza[0-9A-Za-z\-_]{35}\b"@),
        ("SendGrid API key"@, r"SG\.[a-zA-Z0-9_-]{22}\.[a-zA-Z0-9_-]{40,}"@),
    ]
}

/// The labelled expressions of this rule.
pub fn secret_patterns() -> (r: Vec<(&'static str, &'static str)>)
    ensures
        pair_views(r@) == secret_pattern_list(),
{
    let r = vec![
        ("PEM private key header", r"-----BEGIN [A-Z0-9 +\-]+PRIVATE KEY-----"),
        ("AWS access key id", r"\b(?:AKIA|ASIA|AROA)[0-9A-Z]{16}\b"),
        ("GitHub personal access token (classic)", r"\bghp_[a-zA-Z0-9]{36,}\b"),
        ("GitHub fine-grained PAT", r"github_pat_[a-zA-Z0-9_]{20,}"),
        ("Slack bot/user token", r"xox[bpa]-[0-9]{10,13}-[0-9]{10,13}-[a-zA-Z0-9]{24,}"),
        ("Stripe secret key", r"\bsk_(?:live|test)_[0-9a-zA-Z]{20,}\b"),
        ("OpenAI API key (sk-proj-)", r"\bsk-proj-[a-zA-Z0-9_-]{20,}\b"),
        ("OpenAI-style API key (long sk- prefix)", r"\bsk-[a-zA-Z0-9]{45,}\b"),
        ("Anthropic API key", r"\bsk-ant-api03-[a-zA-Z0-9_-]{20,}\b"),
        ("Google API key", r"\bAIza[0-9A-Za-z\-_]{35}\b"),
        ("SendGrid API key", r"SG\.[a-zA-Z0-9_-]{22}\.[a-zA-Z0-9_-]{40,}"),
    ];
    assert(pair_views(r@) =~= secret_pattern_list());
    r
}

/// The secret rule: high severity, score 10.
pub open spec fn secret_rule() -> LineRuleSpec {
    LineRuleSpec {
        rule_id: EXPOSED_SECRETS@,
        severity: "high"@,
        score: 10,
        prefix: "Possible exposed secret ("@,
        suffix: "). Remove or rotate the credential; use env vars or a secret manager."@,
        patterns: secret_pattern_list(),
    }
}

/// Flags lines that look like they hold a credential.
pub struct ExposedSecretsRule;

impl ExposedSecretsRule {
    /// The findings for one file: one per line that matches any of the rule's
    /// expressions and carries no suppression comment for the rule.
    pub fn run(ctx: &FileContext) -> (r: Vec<Finding>)
        ensures
            finding_views(r@) == line_rule_findings(secret_rule(), ctx.path@, views(ctx.lines@)),
    {
        let compiled = compile_all(&secret_patterns());
        run_line_rule(
            ctx,
            EXPOSED_SECRETS,
            "high",
            10,
            "Possible exposed secret (",
            "). Remove or rotate the credential; use env vars or a secret manager.",
            &compiled,
            Ghost(secret_rule()),
        )
    }
}

impl ExposedSecretsRule {
    /// The id of this rule.
    pub const RULE_ID: &'static str = EXPOSED_SECRETS;
}

} // verus!
