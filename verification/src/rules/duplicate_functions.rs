//! Function bodies that occur more than once across the scanned files.

use vstd::prelude::*;
use crate::grouping::{
    as_ints, distinct_keys, group_by_key, lemma_distinct_keys_unique, lemma_positions_absent,
    lemma_positions_exact, positions_of,
};
use crate::models::{
    all_from_rule, all_functions, all_functions_of, context_views, finding_views, function_views, FileContext,
    FileContextView, Finding, FindingView, FunctionInfo, FunctionView,
};
use crate::rules::large_function::{span_len, span_length};
use crate::text::{decimal, fmt_u64, join, join_strings, views};

verus! {

/// The id of this rule.
pub const DUPLICATE_FUNCTIONS: &'static str = "duplicate-functions";

/// Functions spanning fewer lines than this are not compared.
pub const MIN_LINES: i32 = 5;

/// The functions of `fs` that span at least [`MIN_LINES`] lines, in order.
pub open spec fn eligible(fs: Seq<FunctionView>) -> Seq<FunctionView>
    decreases fs.len(),
{
    if fs.len() == 0 {
        Seq::empty()
    } else if span_length(fs.last().line_start, fs.last().line_end) >= MIN_LINES {
        eligible(fs.drop_last()).push(fs.last())
    } else {
        eligible(fs.drop_last())
    }
}

/// The body hashes of `fs`.
pub open spec fn hashes(fs: Seq<FunctionView>) -> Seq<Seq<char>> {
    fs.map_values(|f: FunctionView| f.body_hash)
}

/// The functions of `fs` at positions `idx`.
pub open spec fn pick(fs: Seq<FunctionView>, idx: Seq<int>) -> Seq<FunctionView> {
    idx.map_values(|i: int| fs[i])
}

/// Where a function is: `path:start-end`.
pub open spec fn span_location(f: FunctionView) -> Seq<char> {
    f.file_path + ":"@ + decimal(f.line_start as nat) + "-"@ + decimal(f.line_end as nat)
}

/// The finding for a group `g` of functions with one body: at the first of them,
/// listing where each is.
pub open spec fn duplicate_finding(g: Seq<FunctionView>) -> FindingView {
    FindingView {
        rule_id: DUPLICATE_FUNCTIONS@,
        severity: "high"@,
        file_path: g[0].file_path,
        line_start: Some(g[0].line_start),
        line_end: Some(g[0].line_end),
        message: "Duplicate function body found in "@ + decimal(g.len()) + " locations: "@ + join(
            g.map_values(|f: FunctionView| span_location(f)),
            ", "@,
        ),
        score: 10,
    }
}

/// One finding for each key of `keys` that at least two functions of `fs` have as
/// body hash, in the order of `keys`.
pub open spec fn findings_for_keys(fs: Seq<FunctionView>, keys: Seq<Seq<char>>) -> Seq<FindingView>
    decreases keys.len(),
{
    if keys.len() == 0 {
        Seq::empty()
    } else {
        let g = pick(fs, positions_of(hashes(fs), keys.last()));
        let rest = findings_for_keys(fs, keys.drop_last());
        if g.len() >= 2 {
            rest.push(duplicate_finding(g))
        } else {
            rest
        }
    }
}

/// What the rule reports across all files: among the functions of at least
/// [`MIN_LINES`] lines, one finding per body hash shared by two or more of them,
/// in the order the hashes first appear.
pub open spec fn duplicate_findings(ctxs: Seq<FileContextView>) -> Seq<FindingView> {
    let fs = eligible(all_functions(ctxs));
    findings_for_keys(fs, distinct_keys(hashes(fs)))
}

fn eligible_functions(fs: &Vec<FunctionInfo>) -> (r: Vec<FunctionInfo>)
    ensures
        function_views(r@) == eligible(function_views(fs@)),
{
    let ghost v = function_views(fs@);
    let mut out: Vec<FunctionInfo> = Vec::new();
    let mut i: usize = 0;
    while i < fs.len()
        invariant
            i <= fs@.len(),
            v == function_views(fs@),
            function_views(out@) == eligible(v.take(i as int)),
        decreases fs.len() - i,
    {
        assert(v.take(i + 1).drop_last() == v.take(i as int));
        assert(v.take(i + 1).last() == fs@[i as int]@);
        if span_len(fs[i].line_start, fs[i].line_end) >= MIN_LINES {
            let ghost before = function_views(out@);
            out.push(fs[i].clone());
            assert(function_views(out@) =~= before.push(fs@[i as int]@));
        }
        i += 1;
    }
    assert(v.take(fs@.len() as int) == v);
    out
}

fn location(f: &FunctionInfo) -> (r: String)
    ensures
        r@ == span_location(f@),
{
    let mut s = f.file_path.clone();
    s.append(":");
    s.append(fmt_u64(f.line_start as u64).as_str());
    s.append("-");
    s.append(fmt_u64(f.line_end as u64).as_str());
    s
}

/// Flags function bodies that appear more than once.
pub struct DuplicateFunctionsRule;

impl DuplicateFunctionsRule {
    /// The findings across all files.
    pub fn run_cross_file(contexts: &Vec<FileContext>) -> (r: Vec<Finding>)
        ensures
            finding_views(r@) == duplicate_findings(context_views(contexts@)),
    {
        let all = all_functions_of(contexts);
        let fs = eligible_functions(&all);
        let ghost fv = function_views(fs@);
        let mut keys: Vec<String> = Vec::new();
        let mut i: usize = 0;
        while i < fs.len()
            invariant
                i <= fs@.len(),
                fv == function_views(fs@),
                views(keys@) == hashes(fv).take(i as int),
            decreases fs.len() - i,
        {
            let ghost before = views(keys@);
            keys.push(fs[i].body_hash.clone());
            assert(views(keys@) =~= before.push(fs@[i as int].body_hash@));
            assert(hashes(fv).take(i + 1) =~= hashes(fv).take(i as int).push(fv[i as int].body_hash));
            i += 1;
        }
        assert(hashes(fv).take(fs@.len() as int) =~= hashes(fv));
        let (names, groups) = group_by_key(&keys);
        let ghost dk = distinct_keys(hashes(fv));
        let mut findings: Vec<Finding> = Vec::new();
        let mut g: usize = 0;
        while g < groups.len()
            invariant
                g <= groups@.len() == names@.len(),
                fv == function_views(fs@),
                views(keys@) == hashes(fv),
                views(names@) == dk,
                dk == distinct_keys(hashes(fv)),
                forall|k: int| 0 <= k < names@.len() ==> as_ints(#[trigger] groups@[k]@) == positions_of(views(keys@), names@[k]@),
                finding_views(findings@) == findings_for_keys(fv, dk.take(g as int)),
            decreases groups.len() - g,
        {
            let members = &groups[g];
            let ghost idx = positions_of(hashes(fv), dk[g as int]);
            assert(dk[g as int] == names@[g as int]@);
            assert(as_ints(members@) == idx);
            assert(dk.take(g + 1).drop_last() == dk.take(g as int));
            assert(dk.take(g + 1).last() == dk[g as int]);
            let ghost grp = pick(fv, idx);
            proof {
                assert forall|k: int| 0 <= k < idx.len() implies 0 <= #[trigger] idx[k] < fv.len() by {
                    lemma_positions_in_range(hashes(fv), dk[g as int], k);
                }
            }
            if members.len() >= 2 {
                let mut locs: Vec<String> = Vec::new();
                let mut j: usize = 0;
                while j < members.len()
                    invariant
                        j <= members@.len(),
                        as_ints(members@) == idx,
                        grp == pick(fv, idx),
                        fv == function_views(fs@),
                        forall|k: int| 0 <= k < idx.len() ==> 0 <= #[trigger] idx[k] < fv.len(),
                        views(locs@) == grp.map_values(|f: FunctionView| span_location(f)).take(j as int),
                    decreases members.len() - j,
                {
                    let m = members[j];
                    assert(idx[j as int] == m as int);
                    let loc = location(&fs[m]);
                    let ghost before = views(locs@);
                    locs.push(loc);
                    assert(views(locs@) =~= before.push(span_location(fv[m as int])));
                    assert(grp.map_values(|f: FunctionView| span_location(f)).take(j + 1) =~= grp.map_values(|f: FunctionView| span_location(f)).take(j as int).push(span_location(grp[j as int])));
                    j += 1;
                }
                assert(grp.map_values(|f: FunctionView| span_location(f)).take(members@.len() as int) =~= grp.map_values(|f: FunctionView| span_location(f)));
                let joined = join_strings(&locs, ", ");
                let mut message = "Duplicate function body found in ".to_owned();
                message.append(fmt_u64(members.len() as u64).as_str());
                message.append(" locations: ");
                message.append(joined.as_str());
                let first = &fs[members[0]];
                assert(idx[0] == members@[0] as int);
                assert(grp[0] == first@);
                let f = Finding::make(DUPLICATE_FUNCTIONS, "high", first.file_path.as_str(), Some(first.line_start), Some(first.line_end), message, 10);
                let ghost before = finding_views(findings@);
                findings.push(f);
                assert(finding_views(findings@) =~= before.push(duplicate_finding(grp)));
            }
            g += 1;
        }
        assert(dk.take(groups@.len() as int) =~= dk);
        findings
    }
}

/// Every position [`positions_of`] gives lies within the sequence.
pub proof fn lemma_positions_in_range(ks: Seq<Seq<char>>, key: Seq<char>, k: int)
    requires
        0 <= k < positions_of(ks, key).len(),
    ensures
        0 <= positions_of(ks, key)[k] < ks.len(),
    decreases ks.len(),
{
    if ks.len() > 0 {
        let p = positions_of(ks.drop_last(), key);
        if ks.last() == key {
            if k < p.len() {
                lemma_positions_in_range(ks.drop_last(), key, k);
            }
        } else {
            lemma_positions_in_range(ks.drop_last(), key, k);
        }
    }
}

impl DuplicateFunctionsRule {
    /// The id of this rule.
    pub const RULE_ID: &'static str = DUPLICATE_FUNCTIONS;
}

/// Every finding of the rule carries its id.
pub proof fn lemma_duplicate_rule_id(fs: Seq<FunctionView>, keys: Seq<Seq<char>>)
    ensures
        all_from_rule(findings_for_keys(fs, keys), DUPLICATE_FUNCTIONS@),
    decreases keys.len(),
{
    if keys.len() > 0 {
        lemma_duplicate_rule_id(fs, keys.drop_last());
    }
}

/// The eligible functions of `fs` whose body hash is `h`, in order.
pub open spec fn hash_group(fs: Seq<FunctionView>, h: Seq<char>) -> Seq<FunctionView> {
    pick(fs, positions_of(hashes(fs), h))
}

proof fn lemma_findings_for_keys_groups(fs: Seq<FunctionView>, keys: Seq<Seq<char>>)
    ensures
        forall|i: int| 0 <= i < findings_for_keys(fs, keys).len() ==> exists|m: int|
            0 <= m < keys.len() && hash_group(fs, keys[m]).len() >= 2
                && #[trigger] findings_for_keys(fs, keys)[i] == duplicate_finding(hash_group(fs, keys[m])),
        forall|m: int| 0 <= m < keys.len() && hash_group(fs, #[trigger] keys[m]).len() >= 2
            ==> findings_for_keys(fs, keys).contains(duplicate_finding(hash_group(fs, keys[m]))),
    decreases keys.len(),
{
    if keys.len() > 0 {
        let q = keys.drop_last();
        lemma_findings_for_keys_groups(fs, q);
        let r0 = findings_for_keys(fs, q);
        let r = findings_for_keys(fs, keys);
        let g = hash_group(fs, keys.last());
        assert forall|i: int| 0 <= i < r.len() implies exists|m: int|
            0 <= m < keys.len() && hash_group(fs, keys[m]).len() >= 2
                && #[trigger] r[i] == duplicate_finding(hash_group(fs, keys[m])) by {
            if i < r0.len() {
                assert(r[i] == r0[i]);
                let m = choose|m: int| 0 <= m < q.len() && hash_group(fs, q[m]).len() >= 2
                    && r0[i] == duplicate_finding(hash_group(fs, q[m]));
                assert(keys[m] == q[m]);
            } else {
                assert(keys[keys.len() - 1] == keys.last());
            }
        }
        assert forall|m: int| 0 <= m < keys.len() && hash_group(fs, #[trigger] keys[m]).len() >= 2
            implies r.contains(duplicate_finding(hash_group(fs, keys[m]))) by {
            if m < q.len() {
                assert(keys[m] == q[m]);
                let i = choose|i: int| 0 <= i < r0.len() && r0[i] == duplicate_finding(hash_group(fs, q[m]));
                assert(r[i] == r0[i]);
            } else {
                assert(r[r.len() - 1] == duplicate_finding(g));
            }
        }
    }
}

/// Among the functions of all files that span at least [`MIN_LINES`] lines, group
/// them by body hash: each finding stands for one group of two or more, and every
/// such group has its finding. A group holds exactly the functions with its hash,
/// in order.
pub proof fn lemma_duplicate_groups(ctxs: Seq<FileContextView>)
    ensures
        ({
            let fs = eligible(all_functions(ctxs));
            let r = duplicate_findings(ctxs);
            &&& forall|i: int| 0 <= i < r.len() ==> exists|h: Seq<char>|
                hash_group(fs, h).len() >= 2 && #[trigger] r[i] == duplicate_finding(hash_group(fs, h))
            &&& forall|h: Seq<char>| #[trigger] hash_group(fs, h).len() >= 2 ==> r.contains(
                duplicate_finding(hash_group(fs, h)),
            )
            &&& forall|h: Seq<char>, m: int| 0 <= m < hash_group(fs, h).len() ==> (#[trigger] hash_group(fs, h)[m]).body_hash == h
            &&& forall|i: int| 0 <= i < fs.len() ==> hash_group(fs, (#[trigger] fs[i]).body_hash).contains(fs[i])
        }),
{
    let fs = eligible(all_functions(ctxs));
    let ks = distinct_keys(hashes(fs));
    let r = duplicate_findings(ctxs);
    lemma_findings_for_keys_groups(fs, ks);
    assert forall|i: int| 0 <= i < r.len() implies exists|h: Seq<char>|
        hash_group(fs, h).len() >= 2 && #[trigger] r[i] == duplicate_finding(hash_group(fs, h)) by {
        let m = choose|m: int| 0 <= m < ks.len() && hash_group(fs, ks[m]).len() >= 2
            && r[i] == duplicate_finding(hash_group(fs, ks[m]));
        assert(hash_group(fs, ks[m]).len() >= 2);
    }
    assert forall|h: Seq<char>| #[trigger] hash_group(fs, h).len() >= 2 implies r.contains(
        duplicate_finding(hash_group(fs, h)),
    ) by {
        if !ks.contains(h) {
            lemma_positions_absent(hashes(fs), h);
        }
        let m = choose|m: int| 0 <= m < ks.len() && ks[m] == h;
        assert(hash_group(fs, ks[m]).len() >= 2);
    }
    assert forall|h: Seq<char>, m: int| 0 <= m < hash_group(fs, h).len() implies (#[trigger] hash_group(fs, h)[m]).body_hash == h by {
        lemma_positions_exact(hashes(fs), h);
        let p = positions_of(hashes(fs), h);
        assert(hashes(fs)[p[m]] == h);
    }
    assert forall|i: int| 0 <= i < fs.len() implies hash_group(fs, (#[trigger] fs[i]).body_hash).contains(fs[i]) by {
        let h = fs[i].body_hash;
        lemma_positions_exact(hashes(fs), h);
        let p = positions_of(hashes(fs), h);
        assert(hashes(fs)[i] == h);
        let m = choose|m: int| 0 <= m < p.len() && p[m] == i;
        assert(hash_group(fs, h)[m] == fs[i]);
    }
}

/// The keys of `keys` whose hash group in `fs` has two or more functions, in order.
pub open spec fn shared_keys(fs: Seq<FunctionView>, keys: Seq<Seq<char>>) -> Seq<Seq<char>>
    decreases keys.len(),
{
    if keys.len() == 0 {
        Seq::empty()
    } else if hash_group(fs, keys.last()).len() >= 2 {
        shared_keys(fs, keys.drop_last()).push(keys.last())
    } else {
        shared_keys(fs, keys.drop_last())
    }
}

proof fn lemma_shared_keys(fs: Seq<FunctionView>, keys: Seq<Seq<char>>)
    ensures
        findings_for_keys(fs, keys).len() == shared_keys(fs, keys).len(),
        forall|i: int| 0 <= i < shared_keys(fs, keys).len() ==> {
            &&& hash_group(fs, #[trigger] shared_keys(fs, keys)[i]).len() >= 2
            &&& findings_for_keys(fs, keys)[i] == duplicate_finding(hash_group(fs, shared_keys(fs, keys)[i]))
            &&& keys.contains(shared_keys(fs, keys)[i])
        },
        forall|k: Seq<char>| keys.contains(k) && hash_group(fs, k).len() >= 2 ==> #[trigger] shared_keys(fs, keys).contains(k),
        keys.no_duplicates() ==> shared_keys(fs, keys).no_duplicates(),
    decreases keys.len(),
{
    if keys.len() > 0 {
        let q = keys.drop_last();
        lemma_shared_keys(fs, q);
        let a = shared_keys(fs, q);
        let b = shared_keys(fs, keys);
        assert forall|i: int| 0 <= i < a.len() implies keys.contains(#[trigger] a[i]) by {
            let m = choose|m: int| 0 <= m < q.len() && q[m] == a[i];
            assert(keys[m] == q[m]);
        }
        assert forall|k: Seq<char>| keys.contains(k) && hash_group(fs, k).len() >= 2 implies #[trigger] b.contains(k) by {
            let m = choose|m: int| 0 <= m < keys.len() && keys[m] == k;
            if m < q.len() {
                assert(q[m] == k);
                assert(a.contains(k));
                let i = choose|i: int| 0 <= i < a.len() && a[i] == k;
                assert(b[i] == k);
            } else {
                assert(b[b.len() - 1] == k);
            }
        }
        if keys.no_duplicates() {
            assert(q.no_duplicates()) by {
                assert forall|i: int, j: int| 0 <= i < j < q.len() implies q[i] != q[j] by {
                    assert(q[i] == keys[i] && q[j] == keys[j]);
                }
            }
            if hash_group(fs, keys.last()).len() >= 2 {
                assert forall|i: int, j: int| 0 <= i < j < b.len() implies b[i] != b[j] by {
                    if j == a.len() {
                        assert(keys.contains(a[i]));
                        let m = choose|m: int| 0 <= m < keys.len() && keys[m] == a[i];
                        let m2 = choose|m2: int| 0 <= m2 < q.len() && q[m2] == a[i];
                        assert(keys[m2] == a[i]);
                        assert(m2 != keys.len() - 1);
                    }
                }
            }
        }
    }
}

/// The duplicate findings stand one for one for the hash groups of two or more
/// eligible functions: the hashes of those groups, each once, in the order the
/// hashes first appear, give the findings in the same order, so each such group
/// has exactly one finding.
pub proof fn lemma_duplicate_one_per_group(ctxs: Seq<FileContextView>)
    ensures
        ({
            let fs = eligible(all_functions(ctxs));
            let r = duplicate_findings(ctxs);
            let ks = shared_keys(fs, distinct_keys(hashes(fs)));
            &&& r.len() == ks.len()
            &&& ks.no_duplicates()
            &&& forall|i: int| 0 <= i < ks.len() ==> hash_group(fs, #[trigger] ks[i]).len() >= 2 && r[i]
                == duplicate_finding(hash_group(fs, ks[i]))
            &&& forall|h: Seq<char>| hash_group(fs, h).len() >= 2 ==> #[trigger] ks.contains(h)
        }),
{
    let fs = eligible(all_functions(ctxs));
    let d = distinct_keys(hashes(fs));
    lemma_shared_keys(fs, d);
    assert(d.no_duplicates()) by {
        assert forall|i: int, j: int| 0 <= i < j < d.len() implies d[i] != d[j] by {
            if d[i] == d[j] {
                lemma_distinct_keys_unique(hashes(fs), i, j);
            }
        }
    }
    assert forall|h: Seq<char>| hash_group(fs, h).len() >= 2 implies #[trigger] shared_keys(fs, d).contains(h) by {
        if !d.contains(h) {
            lemma_positions_absent(hashes(fs), h);
        }
    }
}

/// The functions compared are exactly those spanning at least [`MIN_LINES`]
/// lines: every one kept spans that many, and every one that does is kept.
pub proof fn lemma_eligible_exactly(fs: Seq<FunctionView>)
    ensures
        forall|i: int| 0 <= i < eligible(fs).len() ==> span_length((#[trigger] eligible(fs)[i]).line_start, eligible(fs)[i].line_end) >= MIN_LINES && fs.contains(eligible(fs)[i]),
        forall|i: int| 0 <= i < fs.len() && span_length((#[trigger] fs[i]).line_start, fs[i].line_end) >= MIN_LINES ==> eligible(fs).contains(fs[i]),
    decreases fs.len(),
{
    if fs.len() > 0 {
        let p = fs.drop_last();
        lemma_eligible_exactly(p);
        let e0 = eligible(p);
        let e = eligible(fs);
        assert forall|i: int| 0 <= i < e.len() implies span_length((#[trigger] e[i]).line_start, e[i].line_end) >= MIN_LINES && fs.contains(e[i]) by {
            if i < e0.len() {
                assert(e[i] == e0[i]);
                let k = choose|k: int| 0 <= k < p.len() && p[k] == e0[i];
                assert(fs[k] == p[k]);
            } else {
                assert(e[i] == fs[fs.len() - 1]);
            }
        }
        assert forall|i: int| 0 <= i < fs.len() && span_length((#[trigger] fs[i]).line_start, fs[i].line_end) >= MIN_LINES implies e.contains(fs[i]) by {
            if i < p.len() {
                assert(p[i] == fs[i]);
                let k = choose|k: int| 0 <= k < e0.len() && e0[k] == p[i];
                assert(e[k] == e0[k]);
            } else {
                assert(e[e.len() - 1] == fs[i]);
            }
        }
    }
}

} // verus!
