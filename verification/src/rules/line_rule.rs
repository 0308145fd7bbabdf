//! The shape shared by the rules that look at each line on its own: a list of
//! labelled expressions; a line that matches any of them is reported once, with
//! the labels of all that match, unless a suppression comment on it covers the
//! rule.

use vstd::prelude::*;
use crate::models::{all_from_rule, finding_views, FileContext, FindingView, Finding};
use crate::pattern::{regex_is_match, regex_valid, Pattern};
use crate::pragma::{ignore_re, ignores_rule, line_ignores_rule_with, IGNORE_PRAGMA};
use crate::text::{join, views, join_strings};

verus! {

/// What a line rule reports and how: its id, severity and score, the text around
/// the matched labels in its message, and its labelled expressions (label, source).
pub struct LineRuleSpec {
    pub rule_id: Seq<char>,
    pub severity: Seq<char>,
    pub score: i32,
    pub prefix: Seq<char>,
    pub suffix: Seq<char>,
    pub patterns: Seq<(Seq<char>, Seq<char>)>,
}

/// The labels of the expressions that compile and match `line`, in order.
pub open spec fn matched_labels(pats: Seq<(Seq<char>, Seq<char>)>, line: Seq<char>) -> Seq<Seq<char>>
    decreases pats.len(),
{
    if pats.len() == 0 {
        Seq::empty()
    } else {
        let rest = matched_labels(pats.drop_last(), line);
        let (label, source) = pats.last();
        if regex_valid(source) && regex_is_match(source, line) {
            rest.push(label)
        } else {
            rest
        }
    }
}

/// The finding for line number `line_no` whose matched labels are `kinds`.
pub open spec fn line_finding(d: LineRuleSpec, path: Seq<char>, line_no: u32, kinds: Seq<Seq<char>>) -> FindingView {
    FindingView {
        rule_id: d.rule_id,
        severity: d.severity,
        file_path: path,
        line_start: Some(line_no),
        line_end: Some(line_no),
        message: d.prefix + join(kinds, "; "@) + d.suffix,
        score: d.score,
    }
}

/// Reading `lines` from the top: the findings so far and the line numbers already
/// reported. A line's number is its 1-based index as a `u32`; a number that was
/// already reported is not reported again.
pub open spec fn line_rule_state(d: LineRuleSpec, path: Seq<char>, lines: Seq<Seq<char>>) -> (Seq<FindingView>, Set<u32>)
    decreases lines.len(),
{
    if lines.len() == 0 {
        (Seq::empty(), Set::empty())
    } else {
        let (fs, seen) = line_rule_state(d, path, lines.drop_last());
        let line_no = lines.len() as u32;
        let line = lines.last();
        let kinds = matched_labels(d.patterns, line);
        if seen.contains(line_no) || kinds.len() == 0 || ignores_rule(line, d.rule_id) {
            (fs, seen)
        } else {
            (fs.push(line_finding(d, path, line_no, kinds)), seen.insert(line_no))
        }
    }
}

/// What a line rule reports for the file at `path` with `lines`.
pub open spec fn line_rule_findings(d: LineRuleSpec, path: Seq<char>, lines: Seq<Seq<char>>) -> Seq<FindingView> {
    line_rule_state(d, path, lines).0
}

/// Whether `f` is the finding for line `k` of `lines`: the line matches at least one
/// expression, carries no suppression for the rule, and `f` lists what it matches.
pub open spec fn reports_line(d: LineRuleSpec, path: Seq<char>, lines: Seq<Seq<char>>, f: FindingView, k: int) -> bool {
    &&& 0 <= k < lines.len()
    &&& matched_labels(d.patterns, lines[k]).len() > 0
    &&& !ignores_rule(lines[k], d.rule_id)
    &&& f == line_finding(d, path, (k + 1) as u32, matched_labels(d.patterns, lines[k]))
}

/// Whether `f` is the finding for some line of `lines`.
pub open spec fn reports_some_line(d: LineRuleSpec, path: Seq<char>, lines: Seq<Seq<char>>, f: FindingView) -> bool {
    exists|k: int| reports_line(d, path, lines, f, k)
}

/// A line rule reports each line number at most once, and every finding stands
/// for a line that matches one of the rule's expressions and has no suppression
/// comment for the rule.
pub proof fn lemma_line_rule_findings(d: LineRuleSpec, path: Seq<char>, lines: Seq<Seq<char>>)
    ensures
        forall|i: int| 0 <= i < line_rule_state(d, path, lines).0.len() ==> ((#[trigger] line_rule_state(d, path, lines).0[i]).line_start matches Some(n) && line_rule_state(d, path, lines).1.contains(n)),
        forall|i: int, j: int| 0 <= i < j < line_rule_state(d, path, lines).0.len() ==> #[trigger] line_rule_state(d, path, lines).0[i].line_start != #[trigger] line_rule_state(d, path, lines).0[j].line_start,
        forall|i: int| 0 <= i < line_rule_state(d, path, lines).0.len() ==> reports_some_line(d, path, lines, #[trigger] line_rule_state(d, path, lines).0[i]),
    decreases lines.len(),
{
    if lines.len() > 0 {
        let p = lines.drop_last();
        lemma_line_rule_findings(d, path, p);
        let fs0 = line_rule_state(d, path, p).0;
        let seen0 = line_rule_state(d, path, p).1;
        let fs = line_rule_state(d, path, lines).0;
        let seen = line_rule_state(d, path, lines).1;
        let k = lines.len() - 1;
        assert forall|i: int| 0 <= i < fs0.len() implies reports_some_line(d, path, lines, #[trigger] fs0[i]) by {
            assert(reports_some_line(d, path, p, fs0[i]));
            let m = choose|m: int| reports_line(d, path, p, fs0[i], m);
            assert(lines[m] == p[m]);
            assert(reports_line(d, path, lines, fs0[i], m));
        }
        let n = #[verifier::truncate] (lines.len() as u32);
        let kinds = matched_labels(d.patterns, lines.last());
        if seen0.contains(n) || kinds.len() == 0 || ignores_rule(lines.last(), d.rule_id) {
            assert(fs == fs0 && seen == seen0);
        } else {
            let nf = line_finding(d, path, n, kinds);
            assert(fs == fs0.push(nf));
            assert(seen == seen0.insert(n));
            assert forall|i: int| 0 <= i < fs.len() implies ((#[trigger] fs[i]).line_start matches Some(m) && seen.contains(m)) by {
                if i < fs0.len() {
                    assert(fs[i] == fs0[i]);
                }
            }
            assert forall|i: int, j: int| 0 <= i < j < fs.len() implies #[trigger] fs[i].line_start != #[trigger] fs[j].line_start by {
                if j < fs0.len() {
                    assert(fs[i] == fs0[i] && fs[j] == fs0[j]);
                } else {
                    assert(fs[i] == fs0[i]);
                    assert(fs0[i].line_start matches Some(m) && seen0.contains(m));
                    assert(fs[j].line_start == Some(n));
                }
            }
            assert forall|i: int| 0 <= i < fs.len() implies reports_some_line(d, path, lines, #[trigger] fs[i]) by {
                if i < fs0.len() {
                    assert(fs[i] == fs0[i]);
                    assert(reports_some_line(d, path, lines, fs0[i]));
                } else {
                    assert(lines[k] == lines.last());
                    assert(reports_line(d, path, lines, fs[i], k));
                }
            }
        }
    }
}

/// The compiled expressions `compiled` stand for the labelled sources `pats`.
pub open spec fn compiled_from(compiled: Seq<(String, Option<Pattern>)>, pats: Seq<(Seq<char>, Seq<char>)>) -> bool {
    &&& compiled.len() == pats.len()
    &&& forall|j: int| 0 <= j < pats.len() ==> {
        &&& (#[trigger] compiled[j]).0@ == pats[j].0
        &&& (compiled[j].1 is Some <==> regex_valid(pats[j].1))
        &&& (compiled[j].1 matches Some(p) ==> p.source() == pats[j].1)
    }
}

/// The views of a list of (label, source) pairs.
pub open spec fn pair_views(v: Seq<(&'static str, &'static str)>) -> Seq<(Seq<char>, Seq<char>)> {
    v.map_values(|p: (&'static str, &'static str)| (p.0@, p.1@))
}

/// Compiles each source of `pats`.
pub fn compile_all(pats: &Vec<(&'static str, &'static str)>) -> (r: Vec<(String, Option<Pattern>)>)
    ensures
        compiled_from(r@, pair_views(pats@)),
{
    let mut r: Vec<(String, Option<Pattern>)> = Vec::new();
    let mut i: usize = 0;
    while i < pats.len()
        invariant
            i <= pats@.len(),
            compiled_from(r@, pair_views(pats@).take(i as int)),
        decreases pats.len() - i,
    {
        let (label, source) = pats[i];
        let p = Pattern::compile(source);
        r.push((label.to_owned(), p));
        proof {
            let want = pair_views(pats@).take(i + 1);
            assert forall|j: int| 0 <= j < want.len() implies {
                &&& (#[trigger] r@[j]).0@ == want[j].0
                &&& (r@[j].1 is Some <==> regex_valid(want[j].1))
                &&& (r@[j].1 matches Some(p) ==> p.source() == want[j].1)
            } by {
                if j < i {
                    assert(want[j] == pair_views(pats@).take(i as int)[j]);
                }
            }
        }
        i += 1;
    }
    assert(pair_views(pats@).take(pats@.len() as int) == pair_views(pats@));
    r
}

/// The labels of the compiled expressions that match `line`.
fn labels_matching(compiled: &Vec<(String, Option<Pattern>)>, line: &str, pats: Ghost<Seq<(Seq<char>, Seq<char>)>>) -> (r: Vec<String>)
    requires
        compiled_from(compiled@, pats@),
    ensures
        views(r@) == matched_labels(pats@, line@),
{
    let mut r: Vec<String> = Vec::new();
    let mut j: usize = 0;
    while j < compiled.len()
        invariant
            j <= compiled@.len(),
            compiled_from(compiled@, pats@),
            views(r@) == matched_labels(pats@.take(j as int), line@),
        decreases compiled.len() - j,
    {
        assert(pats@.take(j + 1).drop_last() == pats@.take(j as int));
        assert(pats@.take(j + 1).last() == pats@[j as int]);
        let entry = &compiled[j];
        assert(entry.0@ == pats@[j as int].0);
        match &entry.1 {
            Some(p) => {
                if p.is_match(line) {
                    let ghost before = r@;
                    r.push(entry.0.clone());
                    assert(views(r@) =~= views(before).push(entry.0@));
                }
            },
            None => {},
        }
        j += 1;
    }
    assert(pats@.take(compiled@.len() as int) =~= pats@);
    r
}

/// Whether `n` is in `v`.
fn contains_u32(v: &Vec<u32>, n: u32) -> (r: bool)
    ensures
        r == v@.contains(n),
{
    let mut i: usize = 0;
    while i < v.len()
        invariant
            i <= v@.len(),
            forall|k: int| 0 <= k < i ==> v@[k] != n,
        decreases v.len() - i,
    {
        if v[i] == n {
            assert(v@[i as int] == n);
            return true;
        }
        i += 1;
    }
    false
}

/// Runs a line rule over one file. `compiled` holds the rule's expressions.
pub fn run_line_rule(
    ctx: &FileContext,
    rule_id: &str,
    severity: &str,
    score: i32,
    prefix: &str,
    suffix: &str,
    compiled: &Vec<(String, Option<Pattern>)>,
    d: Ghost<LineRuleSpec>,
) -> (r: Vec<Finding>)
    requires
        d@.rule_id == rule_id@,
        d@.severity == severity@,
        d@.score == score,
        d@.prefix == prefix@,
        d@.suffix == suffix@,
        compiled_from(compiled@, d@.patterns),
    ensures
        finding_views(r@) == line_rule_findings(d@, ctx.path@, views(ctx.lines@)),
{
    let ignore = ignore_re();
    let mut findings: Vec<Finding> = Vec::new();
    let mut seen: Vec<u32> = Vec::new();
    let ghost lines = views(ctx.lines@);
    let mut i: usize = 0;
    while i < ctx.lines.len()
        invariant
            i <= ctx.lines@.len(),
            lines == views(ctx.lines@),
            d@.rule_id == rule_id@,
            d@.severity == severity@,
            d@.score == score,
            d@.prefix == prefix@,
            d@.suffix == suffix@,
            compiled_from(compiled@, d@.patterns),
            ignore is Some <==> regex_valid(IGNORE_PRAGMA@),
            ignore matches Some(p) ==> p.source() == IGNORE_PRAGMA@,
            (finding_views(findings@), seen@.to_set()) == line_rule_state(d@, ctx.path@, lines.take(i as int)),
        decreases ctx.lines.len() - i,
    {
        let line = ctx.lines[i].as_str();
        let line_no = #[verifier::truncate] ((i + 1) as u32);
        let ghost prefix_lines = lines.take(i + 1);
        assert(prefix_lines.drop_last() == lines.take(i as int));
        assert(prefix_lines.last() == line@);
        assert(#[verifier::truncate] (prefix_lines.len() as u32) == line_no);
        if contains_u32(&seen, line_no) {
            i += 1;
            continue;
        }
        let kinds = labels_matching(compiled, line, Ghost(d@.patterns));
        if kinds.len() == 0 {
            i += 1;
            continue;
        }
        let ignored = match &ignore {
            Some(p) => line_ignores_rule_with(p, line, rule_id),
            None => false,
        };
        if ignored {
            i += 1;
            continue;
        }
        let ghost before = finding_views(findings@);
        let ghost seen_before = seen@;
        seen.push(line_no);
        let kinds_str = join_strings(&kinds, "; ");
        let mut message = prefix.to_owned();
        message.append(kinds_str.as_str());
        message.append(suffix);
        let f = Finding::make(rule_id, severity, ctx.path.as_str(), Some(line_no), Some(line_no), message, score);
        findings.push(f);
        assert(finding_views(findings@) =~= before.push(line_finding(d@, ctx.path@, line_no, views(kinds@))));
        proof { seen_before.lemma_push_to_set_commute(line_no); }
        i += 1;
    }
    assert(lines.take(ctx.lines@.len() as int) == lines);
    findings
}

/// Every line that matches one of the rule's expressions and carries no
/// suppression comment for the rule is reported, and findings come in ascending
/// line order; this holds while line numbers fit in a `u32`.
pub proof fn lemma_line_rule_complete(d: LineRuleSpec, path: Seq<char>, lines: Seq<Seq<char>>)
    requires
        lines.len() <= u32::MAX,
    ensures
        forall|k: int|
            0 <= k < lines.len() && matched_labels(d.patterns, #[trigger] lines[k]).len() > 0
                && !ignores_rule(lines[k], d.rule_id) ==> line_rule_findings(d, path, lines).contains(
                line_finding(d, path, (k + 1) as u32, matched_labels(d.patterns, lines[k])),
            ),
        forall|i: int, j: int|
            0 <= i < j < line_rule_findings(d, path, lines).len() ==> (#[trigger] line_rule_findings(
                d,
                path,
                lines,
            )[i]).line_start->0 < (#[trigger] line_rule_findings(d, path, lines)[j]).line_start->0,
    decreases lines.len(),
{
    lemma_line_rule_bounds(d, path, lines);
    if lines.len() > 0 {
        let p = lines.drop_last();
        lemma_line_rule_complete(d, path, p);
        lemma_line_rule_bounds(d, path, p);
        let fs0 = line_rule_state(d, path, p).0;
        let seen0 = line_rule_state(d, path, p).1;
        let fs = line_rule_state(d, path, lines).0;
        let n = lines.len() as u32;
        assert(!seen0.contains(n));
        let kinds = matched_labels(d.patterns, lines.last());
        assert forall|k: int|
            0 <= k < lines.len() && matched_labels(d.patterns, #[trigger] lines[k]).len() > 0
                && !ignores_rule(lines[k], d.rule_id) implies fs.contains(
                line_finding(d, path, (k + 1) as u32, matched_labels(d.patterns, lines[k])),
            ) by {
            if k < p.len() {
                assert(lines[k] == p[k]);
                let f = line_finding(d, path, (k + 1) as u32, matched_labels(d.patterns, p[k]));
                assert(fs0.contains(f));
                let i = choose|i: int| 0 <= i < fs0.len() && fs0[i] == f;
                assert(fs[i] == fs0[i]);
            } else {
                assert(fs[fs.len() - 1] == line_finding(d, path, n, kinds));
            }
        }
        assert forall|i: int, j: int| 0 <= i < j < fs.len() implies (#[trigger] fs[i]).line_start->0
            < (#[trigger] fs[j]).line_start->0 by {
            if j < fs0.len() {
                assert(fs[i] == fs0[i] && fs[j] == fs0[j]);
            } else {
                assert(fs[i] == fs0[i]);
            }
        }
    }
}

/// While line numbers fit in a `u32`, the numbers reported are those of the
/// findings, each between 1 and the number of lines.
proof fn lemma_line_rule_bounds(d: LineRuleSpec, path: Seq<char>, lines: Seq<Seq<char>>)
    requires
        lines.len() <= u32::MAX,
    ensures
        forall|n: u32| #[trigger] line_rule_state(d, path, lines).1.contains(n) ==> 1 <= n <= lines.len(),
        forall|i: int| 0 <= i < line_rule_state(d, path, lines).0.len() ==> ((#[trigger] line_rule_state(d, path, lines).0[i]).line_start matches Some(n) && 1 <= n <= lines.len()),
    decreases lines.len(),
{
    if lines.len() > 0 {
        let p = lines.drop_last();
        lemma_line_rule_bounds(d, path, p);
        let fs0 = line_rule_state(d, path, p).0;
        let fs = line_rule_state(d, path, lines).0;
        assert forall|i: int| 0 <= i < fs.len() implies ((#[trigger] fs[i]).line_start matches Some(n) && 1 <= n <= lines.len()) by {
            if i < fs0.len() {
                assert(fs[i] == fs0[i]);
            }
        }
    }
}

/// Every finding of a line rule carries the rule's id.
pub proof fn lemma_line_rule_id(d: LineRuleSpec, path: Seq<char>, lines: Seq<Seq<char>>)
    ensures
        all_from_rule(line_rule_findings(d, path, lines), d.rule_id),
    decreases lines.len(),
{
    if lines.len() > 0 {
        lemma_line_rule_id(d, path, lines.drop_last());
    }
}

} // verus!
