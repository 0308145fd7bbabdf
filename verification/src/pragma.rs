//! Suppression comments: `llm-lint: ignore` (or `slopsniff: ignore`), optionally
//! followed by a comma-separated list of rule ids.

use vstd::prelude::*;
use crate::pattern::{opt_view, regex_capture_all, regex_valid, Pattern};
use crate::text::{split, split_on, str_eq, trim, trim_str};

verus! {

/// The expression that finds suppression comments; group 1 is the rule list.
pub const IGNORE_PRAGMA: &'static str = r"(?i)(?:slopsniff|llm-lint):\s*ignore(?:\s+([\w\-]+(?:\s*,\s*[\w\-]+)*))?";

/// The text of a capture group, or nothing when the group did not take part.
pub open spec fn group_text(group: Option<Seq<char>>) -> Seq<char> {
    match group {
        Some(g) => g,
        None => Seq::empty(),
    }
}

/// Whether one suppression comment, whose rule list is `group`, covers `rule_id`:
/// it names no rules, or one of its comma-separated entries is `rule_id` once
/// trimmed.
pub open spec fn pragma_covers(group: Option<Seq<char>>, rule_id: Seq<char>) -> bool {
    let rest = trim(group_text(group));
    rest.len() == 0 || exists|k: int|
        0 <= k < split(rest, ',').len() && trim(#[trigger] split(rest, ',')[k]) == rule_id
}

/// A suppression comment without a rule list, or with a blank one, covers every
/// rule.
pub proof fn lemma_bare_pragma_covers_all(group: Option<Seq<char>>, rule_id: Seq<char>)
    requires
        trim(group_text(group)).len() == 0,
    ensures
        pragma_covers(group, rule_id),
{
}

/// Whether `line` holds a suppression comment that covers `rule_id`.
pub open spec fn ignores_rule(line: Seq<char>, rule_id: Seq<char>) -> bool {
    let groups = regex_capture_all(IGNORE_PRAGMA@, line, 1);
    regex_valid(IGNORE_PRAGMA@) && exists|i: int| 0 <= i < groups.len() && pragma_covers(#[trigger] groups[i], rule_id)
}

/// The compiled suppression expression.
pub fn ignore_re() -> (r: Option<Pattern>)
    ensures
        r is Some <==> regex_valid(IGNORE_PRAGMA@),
        r matches Some(p) ==> p.source() == IGNORE_PRAGMA@,
{
    Pattern::compile(IGNORE_PRAGMA)
}

/// Whether one suppression comment's rule list covers `rule_id`.
fn covers(group: &Option<String>, rule_id: &str) -> (r: bool)
    ensures
        r == pragma_covers(opt_view(*group), rule_id@),
{
    let rest = match group {
        Some(g) => trim_str(g.as_str()),
        None => String::new(),
    };
    proof {
        if group is None {
            assert(trim(Seq::<char>::empty()) == Seq::<char>::empty());
        }
        assert(rest@ == trim(group_text(opt_view(*group))));
    }
    if rest.as_str().is_empty() {
        return true;
    }
    let parts = split_on(rest.as_str(), ',');
    let mut k: usize = 0;
    while k < parts.len()
        invariant
            k <= parts@.len(),
            rest@ == trim(group_text(opt_view(*group))),
            crate::text::views(parts@) == split(rest@, ','),
            forall|j: int| 0 <= j < k ==> trim(#[trigger] split(rest@, ',')[j]) != rule_id@,
        decreases parts.len() - k,
    {
        let t = trim_str(parts[k].as_str());
        assert(split(rest@, ',')[k as int] == parts@[k as int]@);
        if str_eq(t.as_str(), rule_id) {
            assert(trim(split(rest@, ',')[k as int]) == rule_id@);
            return true;
        }
        k += 1;
    }
    false
}

/// Whether `line` holds a suppression comment that covers `rule_id`, with the
/// suppression expression already compiled.
pub fn line_ignores_rule_with(re: &Pattern, line: &str, rule_id: &str) -> (r: bool)
    requires
        re.source() == IGNORE_PRAGMA@,
        regex_valid(IGNORE_PRAGMA@),
    ensures
        r == ignores_rule(line@, rule_id@),
{
    let groups = re.capture_all(line, 1);
    let ghost gs = regex_capture_all(IGNORE_PRAGMA@, line@, 1);
    let mut i: usize = 0;
    while i < groups.len()
        invariant
            i <= groups@.len(),
            regex_valid(IGNORE_PRAGMA@),
            gs == regex_capture_all(IGNORE_PRAGMA@, line@, 1),
            groups@.map_values(|g: Option<String>| opt_view(g)) == gs,
            forall|j: int| 0 <= j < i ==> !pragma_covers(#[trigger] gs[j], rule_id@),
        decreases groups.len() - i,
    {
        assert(gs[i as int] == opt_view(groups@[i as int]));
        if covers(&groups[i], rule_id) {
            assert(pragma_covers(gs[i as int], rule_id@));
            return true;
        }
        i += 1;
    }
    false
}

/// True if `line` contains a pragma suppressing `rule_id`, or all rules (bare
/// `ignore`).
pub fn line_ignores_rule(line: &str, rule_id: &str) -> (r: bool)
    ensures
        r == ignores_rule(line@, rule_id@),
{
    match ignore_re() {
        Some(re) => line_ignores_rule_with(&re, line, rule_id),
        None => false,
    }
}

} // verus!
