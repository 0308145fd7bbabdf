//! Catch-all helper modules and versioned copies of one function.

use vstd::prelude::*;
use crate::grouping::{
    as_ints, distinct_keys, group_by_key, lemma_distinct_keys_unique, lemma_positions_absent,
    lemma_positions_exact, positions_of,
};
use crate::models::{
    all_from_rule, all_functions, all_functions_of, context_views, finding_views, function_views, FileContext,
    FileContextView, Finding, FindingView, FunctionInfo, FunctionView,
};
use crate::paths::{file_name, file_name_of, file_stem, file_stem_of};
use crate::pattern::{regex_replace, regex_valid, Pattern};
use crate::rules::duplicate_functions::{lemma_positions_in_range, pick};
use crate::text::{contains_str, decimal, fmt_u64, join, join_strings, lowercase, str_eq, to_lowercase, views};

verus! {

/// The id of this rule.
pub const HELPER_SPRAWL: &'static str = "helper-sprawl";

/// The expression for a version-like suffix of a function name.
pub const VERSION_SUFFIX: &'static str = r"(_v\d+\w*|_safe|_new|_old|_legacy|_fixed|_updated|_temp|_tmp|_copy)$";

/// File stems that name a catch-all module.
pub open spec fn helper_filenames() -> Seq<Seq<char>> {
    seq!["utils"@, "helpers"@, "common"@, "shared"@, "misc"@, "util"@, "helper"@]
}

/// The catch-all module stems.
pub fn helper_filename_list() -> (r: Vec<String>)
    ensures
        views(r@) == helper_filenames(),
{
    let r = vec![
        "utils".to_owned(),
        "helpers".to_owned(),
        "common".to_owned(),
        "shared".to_owned(),
        "misc".to_owned(),
        "util".to_owned(),
        "helper".to_owned(),
    ];
    assert(views(r@) =~= helper_filenames());
    r
}

/// A function name without its version-like suffix: the leftmost match of
/// [`VERSION_SUFFIX`] removed, or the name as it is if the expression does not
/// compile.
pub open spec fn base_name_of(name: Seq<char>) -> Seq<char> {
    if regex_valid(VERSION_SUFFIX@) {
        regex_replace(VERSION_SUFFIX@, name, Seq::empty())
    } else {
        name
    }
}

/// A function name without its version-like suffix, with the expression compiled.
fn base_name_with(re: &Option<Pattern>, name: &str) -> (r: String)
    requires
        re is Some <==> regex_valid(VERSION_SUFFIX@),
        re matches Some(p) ==> p.source() == VERSION_SUFFIX@,
    ensures
        r@ == base_name_of(name@),
{
    match re {
        Some(p) => {
            let r = p.replace(name, "");
            assert(""@ =~= Seq::<char>::empty()) by {
                reveal_strlit("");
            }
            r
        },
        None => name.to_owned(),
    }
}

/// A function name without its version-like suffix.
pub fn base_name(name: &str) -> (r: String)
    ensures
        r@ == base_name_of(name@),
{
    let re = Pattern::compile(VERSION_SUFFIX);
    base_name_with(&re, name)
}

/// What the rule reports for one file: a low finding (score 2) when the file's
/// stem, lower-cased, is one of [`helper_filenames`].
pub open spec fn helper_file_findings(ctx: FileContextView) -> Seq<FindingView> {
    let name = file_name(ctx.path);
    if helper_filenames().contains(lowercase(file_stem(name))) {
        seq![
            FindingView {
                rule_id: HELPER_SPRAWL@,
                severity: "low"@,
                file_path: ctx.path,
                line_start: None,
                line_end: None,
                message: "Generic helper filename '"@ + name
                    + "' suggests a low-cohesion catch-all module"@,
                score: 2,
            },
        ]
    } else {
        Seq::empty()
    }
}

/// The base names of `fs`.
pub open spec fn base_names(fs: Seq<FunctionView>) -> Seq<Seq<char>> {
    fs.map_values(|f: FunctionView| base_name_of(f.name))
}

/// Whether the functions of `g` carry at least two different names.
pub open spec fn has_variants(g: Seq<FunctionView>) -> bool {
    exists|i: int, j: int| 0 <= i < g.len() && 0 <= j < g.len() && #[trigger] g[i].name != #[trigger] g[j].name
}

/// How a variant is listed: `'name' at path:line`.
pub open spec fn variant_location(f: FunctionView) -> Seq<char> {
    "'"@ + f.name + "' at "@ + f.file_path + ":"@ + decimal(f.line_start as nat)
}

/// The finding for the variants `g` of base name `base`: at the first of them.
pub open spec fn variants_finding(base: Seq<char>, g: Seq<FunctionView>) -> FindingView {
    FindingView {
        rule_id: HELPER_SPRAWL@,
        severity: "medium"@,
        file_path: g[0].file_path,
        line_start: Some(g[0].line_start),
        line_end: None,
        message: "Versioned function name variants detected for '"@ + base + "': "@ + join(
            g.map_values(|f: FunctionView| variant_location(f)),
            ", "@,
        ),
        score: 5,
    }
}

/// One finding for each base name of `keys` whose functions in `fs` carry two or
/// more names, in the order of `keys`.
pub open spec fn variant_findings_for_keys(fs: Seq<FunctionView>, keys: Seq<Seq<char>>) -> Seq<FindingView>
    decreases keys.len(),
{
    if keys.len() == 0 {
        Seq::empty()
    } else {
        let g = pick(fs, positions_of(base_names(fs), keys.last()));
        let rest = variant_findings_for_keys(fs, keys.drop_last());
        if has_variants(g) {
            rest.push(variants_finding(keys.last(), g))
        } else {
            rest
        }
    }
}

/// What the rule reports across all files: one finding per base name shared by
/// functions with at least two different names, in the order the base names
/// first appear.
pub open spec fn variant_findings(ctxs: Seq<FileContextView>) -> Seq<FindingView> {
    let fs = all_functions(ctxs);
    variant_findings_for_keys(fs, distinct_keys(base_names(fs)))
}

fn variant_location_of(f: &FunctionInfo) -> (r: String)
    ensures
        r@ == variant_location(f@),
{
    let mut s = "'".to_owned();
    s.append(f.name.as_str());
    s.append("' at ");
    s.append(f.file_path.as_str());
    s.append(":");
    s.append(fmt_u64(f.line_start as u64).as_str());
    s
}

/// Flags catch-all helper modules and versioned copies of one function.
pub struct HelperSprawlRule;

impl HelperSprawlRule {
    /// The finding for one file whose name suggests a catch-all module.
    pub fn run(ctx: &FileContext) -> (r: Vec<Finding>)
        ensures
            finding_views(r@) == helper_file_findings(ctx@),
    {
        let name = file_name_of(ctx.path.as_str());
        let stem = to_lowercase(file_stem_of(name.as_str()).as_str());
        if contains_str(&helper_filename_list(), stem.as_str()) {
            let mut message = "Generic helper filename '".to_owned();
            message.append(name.as_str());
            message.append("' suggests a low-cohesion catch-all module");
            let f = Finding::make(HELPER_SPRAWL, "low", ctx.path.as_str(), None, None, message, 2);
            let r = vec![f];
            assert(finding_views(r@) =~= helper_file_findings(ctx@));
            r
        } else {
            let r = Vec::new();
            assert(finding_views(r@) =~= helper_file_findings(ctx@));
            r
        }
    }

    /// The findings for versioned function names across all files.
    pub fn run_cross_file(contexts: &Vec<FileContext>) -> (r: Vec<Finding>)
        ensures
            finding_views(r@) == variant_findings(context_views(contexts@)),
    {
        let fs = all_functions_of(contexts);
        let ghost fv = function_views(fs@);
        let re = Pattern::compile(VERSION_SUFFIX);
        let mut keys: Vec<String> = Vec::new();
        let mut i: usize = 0;
        while i < fs.len()
            invariant
                i <= fs@.len(),
                fv == function_views(fs@),
                re is Some <==> regex_valid(VERSION_SUFFIX@),
                re matches Some(p) ==> p.source() == VERSION_SUFFIX@,
                views(keys@) == base_names(fv).take(i as int),
            decreases fs.len() - i,
        {
            let ghost before = views(keys@);
            let b = base_name_with(&re, fs[i].name.as_str());
            keys.push(b);
            assert(views(keys@) =~= before.push(base_name_of(fs@[i as int].name@)));
            assert(base_names(fv).take(i + 1) =~= base_names(fv).take(i as int).push(base_name_of(fv[i as int].name)));
            i += 1;
        }
        assert(base_names(fv).take(fs@.len() as int) =~= base_names(fv));
        let (names, groups) = group_by_key(&keys);
        let ghost dk = distinct_keys(base_names(fv));
        let mut findings: Vec<Finding> = Vec::new();
        let mut g: usize = 0;
        while g < groups.len()
            invariant
                g <= groups@.len() == names@.len(),
                fv == function_views(fs@),
                views(keys@) == base_names(fv),
                views(names@) == dk,
                dk == distinct_keys(base_names(fv)),
                forall|k: int| 0 <= k < names@.len() ==> as_ints(#[trigger] groups@[k]@) == positions_of(views(keys@), names@[k]@),
                finding_views(findings@) == variant_findings_for_keys(fv, dk.take(g as int)),
            decreases groups.len() - g,
        {
            let members = &groups[g];
            let ghost idx = positions_of(base_names(fv), dk[g as int]);
            assert(dk[g as int] == names@[g as int]@);
            assert(as_ints(members@) == idx);
            assert(dk.take(g + 1).drop_last() == dk.take(g as int));
            assert(dk.take(g + 1).last() == dk[g as int]);
            let ghost grp = pick(fv, idx);
            proof {
                assert forall|k: int| 0 <= k < idx.len() implies 0 <= #[trigger] idx[k] < fv.len() by {
                    lemma_positions_in_range(base_names(fv), dk[g as int], k);
                }
            }
            // Two or more names among the members: some member's name differs from the first.
            let mut variants = false;
            proof {
                assert forall|k: int| 0 <= k < members@.len() implies (#[trigger] members@[k] as int) < fs@.len() by {
                    assert(idx[k] == members@[k] as int);
                }
            }
            if members.len() > 0 {
                let first_name = fs[members[0]].name.as_str();
                assert(grp[0].name == first_name@);
                let mut j: usize = 1;
                while j < members.len() && str_eq(fs[members[j]].name.as_str(), first_name)
                    invariant
                        1 <= j <= members@.len(),
                        as_ints(members@) == idx,
                        grp == pick(fv, idx),
                        fv == function_views(fs@),
                        forall|k: int| 0 <= k < idx.len() ==> 0 <= #[trigger] idx[k] < fv.len(),
                        grp[0].name == first_name@,
                        forall|k: int| 0 <= k < members@.len() ==> (#[trigger] members@[k] as int) < fs@.len(),
                        forall|k: int| 0 <= k < j ==> #[trigger] grp[k].name == first_name@,
                    decreases members.len() - j,
                {
                    assert(grp[j as int] == fv[idx[j as int]]);
                    j += 1;
                }
                variants = j < members.len();
                proof {
                    if variants {
                        assert(grp[j as int] == fv[idx[j as int]]);
                        assert(grp[j as int].name != grp[0].name);
                    } else {
                        assert forall|a: int, b: int| 0 <= a < grp.len() && 0 <= b < grp.len() implies #[trigger] grp[a].name == #[trigger] grp[b].name by {
                            assert(grp[a].name == first_name@);
                            assert(grp[b].name == first_name@);
                        }
                    }
                }
            }
            assert(variants == has_variants(grp));
            if variants {
                let mut locs: Vec<String> = Vec::new();
                let mut j: usize = 0;
                while j < members.len()
                    invariant
                        j <= members@.len(),
                        as_ints(members@) == idx,
                        grp == pick(fv, idx),
                        fv == function_views(fs@),
                        forall|k: int| 0 <= k < idx.len() ==> 0 <= #[trigger] idx[k] < fv.len(),
                        views(locs@) == grp.map_values(|f: FunctionView| variant_location(f)).take(j as int),
                    decreases members.len() - j,
                {
                    let m = members[j];
                    assert(idx[j as int] == m as int);
                    let loc = variant_location_of(&fs[m]);
                    let ghost before = views(locs@);
                    locs.push(loc);
                    assert(views(locs@) =~= before.push(variant_location(fv[m as int])));
                    assert(grp.map_values(|f: FunctionView| variant_location(f)).take(j + 1) =~= grp.map_values(|f: FunctionView| variant_location(f)).take(j as int).push(variant_location(grp[j as int])));
                    j += 1;
                }
                assert(grp.map_values(|f: FunctionView| variant_location(f)).take(members@.len() as int) =~= grp.map_values(|f: FunctionView| variant_location(f)));
                let joined = join_strings(&locs, ", ");
                let mut message = "Versioned function name variants detected for '".to_owned();
                message.append(names[g].as_str());
                message.append("': ");
                message.append(joined.as_str());
                let first = &fs[members[0]];
                assert(idx[0] == members@[0] as int);
                assert(grp[0] == first@);
                let f = Finding::make(HELPER_SPRAWL, "medium", first.file_path.as_str(), Some(first.line_start), None, message, 5);
                let ghost before = finding_views(findings@);
                findings.push(f);
                assert(finding_views(findings@) =~= before.push(variants_finding(dk[g as int], grp)));
            }
            g += 1;
        }
        assert(dk.take(groups@.len() as int) =~= dk);
        findings
    }
}

impl HelperSprawlRule {
    /// The id of this rule.
    pub const RULE_ID: &'static str = HELPER_SPRAWL;
}

/// Every finding the rule reports for one file carries its id.
pub proof fn lemma_helper_file_rule_id(ctx: FileContextView)
    ensures
        all_from_rule(helper_file_findings(ctx), HELPER_SPRAWL@),
{
}

/// Every finding the rule reports across files carries its id.
pub proof fn lemma_variant_rule_id(fs: Seq<FunctionView>, keys: Seq<Seq<char>>)
    ensures
        all_from_rule(variant_findings_for_keys(fs, keys), HELPER_SPRAWL@),
    decreases keys.len(),
{
    if keys.len() > 0 {
        lemma_variant_rule_id(fs, keys.drop_last());
    }
}

/// The functions of `fs` whose base name is `b`, in order.
pub open spec fn base_group(fs: Seq<FunctionView>, b: Seq<char>) -> Seq<FunctionView> {
    pick(fs, positions_of(base_names(fs), b))
}

proof fn lemma_variant_findings_groups(fs: Seq<FunctionView>, keys: Seq<Seq<char>>)
    ensures
        forall|i: int| 0 <= i < variant_findings_for_keys(fs, keys).len() ==> exists|m: int|
            0 <= m < keys.len() && has_variants(base_group(fs, keys[m]))
                && #[trigger] variant_findings_for_keys(fs, keys)[i] == variants_finding(keys[m], base_group(fs, keys[m])),
        forall|m: int| 0 <= m < keys.len() && has_variants(base_group(fs, #[trigger] keys[m]))
            ==> variant_findings_for_keys(fs, keys).contains(variants_finding(keys[m], base_group(fs, keys[m]))),
    decreases keys.len(),
{
    if keys.len() > 0 {
        let q = keys.drop_last();
        lemma_variant_findings_groups(fs, q);
        let r0 = variant_findings_for_keys(fs, q);
        let r = variant_findings_for_keys(fs, keys);
        assert forall|i: int| 0 <= i < r.len() implies exists|m: int|
            0 <= m < keys.len() && has_variants(base_group(fs, keys[m]))
                && #[trigger] r[i] == variants_finding(keys[m], base_group(fs, keys[m])) by {
            if i < r0.len() {
                assert(r[i] == r0[i]);
                let m = choose|m: int| 0 <= m < q.len() && has_variants(base_group(fs, q[m]))
                    && r0[i] == variants_finding(q[m], base_group(fs, q[m]));
                assert(keys[m] == q[m]);
            } else {
                assert(keys[keys.len() - 1] == keys.last());
            }
        }
        assert forall|m: int| 0 <= m < keys.len() && has_variants(base_group(fs, #[trigger] keys[m]))
            implies r.contains(variants_finding(keys[m], base_group(fs, keys[m]))) by {
            if m < q.len() {
                assert(keys[m] == q[m]);
                let i = choose|i: int| 0 <= i < r0.len() && r0[i] == variants_finding(q[m], base_group(fs, q[m]));
                assert(r[i] == r0[i]);
            } else {
                assert(r[r.len() - 1] == variants_finding(keys.last(), base_group(fs, keys.last())));
            }
        }
    }
}

/// Group the functions of all files by base name: each finding stands for one
/// group whose functions carry at least two different names, and every such group
/// has its finding. A group holds exactly the functions with its base name, in
/// order.
pub proof fn lemma_variant_groups(ctxs: Seq<FileContextView>)
    ensures
        ({
            let fs = all_functions(ctxs);
            let r = variant_findings(ctxs);
            &&& forall|i: int| 0 <= i < r.len() ==> exists|b: Seq<char>|
                has_variants(base_group(fs, b)) && #[trigger] r[i] == variants_finding(b, base_group(fs, b))
            &&& forall|b: Seq<char>| #[trigger] has_variants(base_group(fs, b)) ==> r.contains(
                variants_finding(b, base_group(fs, b)),
            )
            &&& forall|b: Seq<char>, m: int| 0 <= m < base_group(fs, b).len() ==> base_name_of((#[trigger] base_group(fs, b)[m]).name) == b
            &&& forall|i: int| 0 <= i < fs.len() ==> base_group(fs, base_name_of((#[trigger] fs[i]).name)).contains(fs[i])
        }),
{
    let fs = all_functions(ctxs);
    let ks = distinct_keys(base_names(fs));
    let r = variant_findings(ctxs);
    lemma_variant_findings_groups(fs, ks);
    assert forall|i: int| 0 <= i < r.len() implies exists|b: Seq<char>|
        has_variants(base_group(fs, b)) && #[trigger] r[i] == variants_finding(b, base_group(fs, b)) by {
        let m = choose|m: int| 0 <= m < ks.len() && has_variants(base_group(fs, ks[m]))
            && r[i] == variants_finding(ks[m], base_group(fs, ks[m]));
        assert(has_variants(base_group(fs, ks[m])));
    }
    assert forall|b: Seq<char>| #[trigger] has_variants(base_group(fs, b)) implies r.contains(
        variants_finding(b, base_group(fs, b)),
    ) by {
        if !ks.contains(b) {
            lemma_positions_absent(base_names(fs), b);
            assert(base_group(fs, b).len() == 0);
        }
        let m = choose|m: int| 0 <= m < ks.len() && ks[m] == b;
        assert(has_variants(base_group(fs, ks[m])));
    }
    assert forall|b: Seq<char>, m: int| 0 <= m < base_group(fs, b).len() implies base_name_of((#[trigger] base_group(fs, b)[m]).name) == b by {
        lemma_positions_exact(base_names(fs), b);
        let p = positions_of(base_names(fs), b);
        assert(base_names(fs)[p[m]] == b);
    }
    assert forall|i: int| 0 <= i < fs.len() implies base_group(fs, base_name_of((#[trigger] fs[i]).name)).contains(fs[i]) by {
        let b = base_name_of(fs[i].name);
        lemma_positions_exact(base_names(fs), b);
        let p = positions_of(base_names(fs), b);
        assert(base_names(fs)[i] == b);
        let m = choose|m: int| 0 <= m < p.len() && p[m] == i;
        assert(base_group(fs, b)[m] == fs[i]);
    }
}

/// The keys of `keys` whose base-name group in `fs` carries two or more names, in order.
pub open spec fn variant_keys(fs: Seq<FunctionView>, keys: Seq<Seq<char>>) -> Seq<Seq<char>>
    decreases keys.len(),
{
    if keys.len() == 0 {
        Seq::empty()
    } else if has_variants(base_group(fs, keys.last())) {
        variant_keys(fs, keys.drop_last()).push(keys.last())
    } else {
        variant_keys(fs, keys.drop_last())
    }
}

proof fn lemma_variant_keys(fs: Seq<FunctionView>, keys: Seq<Seq<char>>)
    ensures
        variant_findings_for_keys(fs, keys).len() == variant_keys(fs, keys).len(),
        forall|i: int| 0 <= i < variant_keys(fs, keys).len() ==> {
            &&& has_variants(base_group(fs, #[trigger] variant_keys(fs, keys)[i]))
            &&& variant_findings_for_keys(fs, keys)[i] == variants_finding(variant_keys(fs, keys)[i], base_group(fs, variant_keys(fs, keys)[i]))
            &&& keys.contains(variant_keys(fs, keys)[i])
        },
        forall|k: Seq<char>| keys.contains(k) && has_variants(base_group(fs, k)) ==> #[trigger] variant_keys(fs, keys).contains(k),
        keys.no_duplicates() ==> variant_keys(fs, keys).no_duplicates(),
    decreases keys.len(),
{
    if keys.len() > 0 {
        let q = keys.drop_last();
        lemma_variant_keys(fs, q);
        let a = variant_keys(fs, q);
        let b = variant_keys(fs, keys);
        assert forall|i: int| 0 <= i < a.len() implies keys.contains(#[trigger] a[i]) by {
            let m = choose|m: int| 0 <= m < q.len() && q[m] == a[i];
            assert(keys[m] == q[m]);
        }
        assert forall|k: Seq<char>| keys.contains(k) && has_variants(base_group(fs, k)) implies #[trigger] b.contains(k) by {
            let m = choose|m: int| 0 <= m < keys.len() && keys[m] == k;
            if m < q.len() {
                assert(q[m] == k);
                assert(a.contains(k));
                let i = choose|i: int| 0 <= i < a.len() && a[i] == k;
                assert(b[i] == k);
            } else {
                assert(b[b.len() - 1] == k);
            }
        }
        if keys.no_duplicates() {
            assert(q.no_duplicates()) by {
                assert forall|i: int, j: int| 0 <= i < j < q.len() implies q[i] != q[j] by {
                    assert(q[i] == keys[i] && q[j] == keys[j]);
                }
            }
            if has_variants(base_group(fs, keys.last())) {
                assert forall|i: int, j: int| 0 <= i < j < b.len() implies b[i] != b[j] by {
                    if j == a.len() {
                        assert(keys.contains(a[i]));
                        let m = choose|m: int| 0 <= m < keys.len() && keys[m] == a[i];
                        let m2 = choose|m2: int| 0 <= m2 < q.len() && q[m2] == a[i];
                        assert(keys[m2] == a[i]);
                        assert(m2 != keys.len() - 1);
                    }
                }
            }
        }
    }
}

/// The versioned-name findings stand one for one for the base-name groups whose
/// functions carry two or more names: the base names of those groups, each once,
/// in the order they first appear, give the findings in the same order, so each
/// such group has exactly one finding.
pub proof fn lemma_variant_one_per_group(ctxs: Seq<FileContextView>)
    ensures
        ({
            let fs = all_functions(ctxs);
            let r = variant_findings(ctxs);
            let ks = variant_keys(fs, distinct_keys(base_names(fs)));
            &&& r.len() == ks.len()
            &&& ks.no_duplicates()
            &&& forall|i: int| 0 <= i < ks.len() ==> has_variants(base_group(fs, #[trigger] ks[i])) && r[i]
                == variants_finding(ks[i], base_group(fs, ks[i]))
            &&& forall|b: Seq<char>| has_variants(base_group(fs, b)) ==> #[trigger] ks.contains(b)
        }),
{
    let fs = all_functions(ctxs);
    let d = distinct_keys(base_names(fs));
    lemma_variant_keys(fs, d);
    assert(d.no_duplicates()) by {
        assert forall|i: int, j: int| 0 <= i < j < d.len() implies d[i] != d[j] by {
            if d[i] == d[j] {
                lemma_distinct_keys_unique(base_names(fs), i, j);
            }
        }
    }
    assert forall|b: Seq<char>| has_variants(base_group(fs, b)) implies #[trigger] variant_keys(fs, d).contains(b) by {
        if !d.contains(b) {
            lemma_positions_absent(base_names(fs), b);
            assert(base_group(fs, b).len() == 0);
        }
    }
}

/// Whenever two functions of the files share a base name but carry different names,
/// whatever files they are in, the findings hold the one for that base name; and
/// every finding is that of a base name shared by two functions with different
/// names.
pub proof fn lemma_variants_found_across_and_within_files(ctxs: Seq<FileContextView>)
    ensures
        ({
            let fs = all_functions(ctxs);
            let r = variant_findings(ctxs);
            &&& forall|i: int, j: int|
                0 <= i < fs.len() && 0 <= j < fs.len() && base_name_of(#[trigger] fs[i].name) == base_name_of(
                    #[trigger] fs[j].name,
                ) && fs[i].name != fs[j].name ==> r.contains(
                    variants_finding(base_name_of(fs[i].name), base_group(fs, base_name_of(fs[i].name))),
                )
            &&& forall|k: int| 0 <= k < r.len() ==> exists|b: Seq<char>, i: int, j: int|
                0 <= i < fs.len() && 0 <= j < fs.len() && base_name_of(fs[i].name) == b && base_name_of(fs[j].name)
                    == b && fs[i].name != fs[j].name && #[trigger] r[k] == variants_finding(b, base_group(fs, b))
        }),
{
    let fs = all_functions(ctxs);
    let r = variant_findings(ctxs);
    lemma_variant_groups(ctxs);
    assert forall|i: int, j: int|
        0 <= i < fs.len() && 0 <= j < fs.len() && base_name_of(#[trigger] fs[i].name) == base_name_of(
            #[trigger] fs[j].name,
        ) && fs[i].name != fs[j].name implies r.contains(
            variants_finding(base_name_of(fs[i].name), base_group(fs, base_name_of(fs[i].name))),
        ) by {
        let b = base_name_of(fs[i].name);
        let g = base_group(fs, b);
        assert(g.contains(fs[i]));
        assert(g.contains(fs[j]));
        let x = choose|x: int| 0 <= x < g.len() && g[x] == fs[i];
        let y = choose|y: int| 0 <= y < g.len() && g[y] == fs[j];
        assert(g[x].name != g[y].name);
        assert(has_variants(g));
    }
    assert forall|k: int| 0 <= k < r.len() implies exists|b: Seq<char>, i: int, j: int|
        0 <= i < fs.len() && 0 <= j < fs.len() && base_name_of(fs[i].name) == b && base_name_of(fs[j].name)
            == b && fs[i].name != fs[j].name && #[trigger] r[k] == variants_finding(b, base_group(fs, b)) by {
        let b = choose|b: Seq<char>| has_variants(base_group(fs, b)) && r[k] == variants_finding(b, base_group(fs, b));
        let g = base_group(fs, b);
        let (x, y) = choose|x: int, y: int| 0 <= x < g.len() && 0 <= y < g.len() && #[trigger] g[x].name != #[trigger] g[y].name;
        lemma_positions_exact(base_names(fs), b);
        let p = positions_of(base_names(fs), b);
        assert(g[x] == fs[p[x]] && g[y] == fs[p[y]]);
        assert(base_names(fs)[p[x]] == b && base_names(fs)[p[y]] == b);
        assert(base_name_of(fs[p[x]].name) == b);
        assert(base_name_of(fs[p[y]].name) == b);
    }
}

} // verus!
