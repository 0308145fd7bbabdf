//! How the terminal report groups and orders findings: by directory, then by
//! file, each in string order; within a file by severity, then start line, then
//! rule id, ties keeping the scan's order.

use vstd::prelude::*;
use crate::cli::{severity_order, severity_rank};
use crate::models::{finding_views, Finding, FindingView, ScanResult};
use crate::paths::{
    distinct_sorted, file_name, file_name_of, lemma_seq_lt_transitive, seq_less, sorted_by, str_lt,
};
use crate::text::{chars_of, decimal, fmt_u64, string_from_range, views};

verus! {

/// The index of the last `/` in `s`.
pub open spec fn last_slash(s: Seq<char>) -> Option<int>
    decreases s.len(),
{
    if s.len() == 0 {
        None
    } else if s.last() == '/' {
        Some(s.len() - 1)
    } else {
        last_slash(s.drop_last())
    }
}

/// The directory a finding's file is listed under: the text before the last `/`,
/// `/` for a file directly under the root, nothing for a bare file name. For
/// paths without repeated or trailing separators this is `Path::parent`.
pub open spec fn parent_dir(p: Seq<char>) -> Seq<char> {
    match last_slash(p) {
        Some(i) => if i == 0 {
            if p.len() == 1 { Seq::empty() } else { seq!['/'] }
        } else {
            p.take(i)
        },
        None => Seq::empty(),
    }
}

proof fn lemma_last_slash_none(s: Seq<char>, j: int)
    requires
        0 <= j <= s.len(),
        forall|k: int| j <= k < s.len() ==> #[trigger] s[k] != '/',
    ensures
        last_slash(s) == last_slash(s.take(j)),
    decreases s.len() - j,
{
    if j < s.len() {
        assert(s.drop_last().take(j) == s.take(j));
        lemma_last_slash_none(s.drop_last(), j);
    } else {
        assert(s.take(j) == s);
    }
}

/// The directory a file is listed under.
pub fn parent_dir_of(p: &str) -> (r: String)
    ensures
        r@ == parent_dir(p@),
{
    let v = chars_of(p);
    let mut j = v.len();
    while j > 0 && v[j - 1] != '/'
        invariant
            j <= v@.len(),
            forall|k: int| j <= k < v@.len() ==> #[trigger] v@[k] != '/',
        decreases j,
    {
        j -= 1;
    }
    proof {
        lemma_last_slash_none(v@, j as int);
        if j > 0 {
            assert(v@.take(j as int).last() == v@[j - 1]);
        }
    }
    if j == 0 {
        String::new()
    } else if j == 1 {
        if v.len() == 1 {
            String::new()
        } else {
            let mut r = String::new();
            crate::text::push_char(&mut r, '/');
            r
        }
    } else {
        string_from_range(&v, 0, j - 1)
    }
}

/// The name a file is listed by: its file name, or its whole path when it has none.
pub open spec fn listed_name(p: Seq<char>) -> Seq<char> {
    if file_name(p).len() == 0 { p } else { file_name(p) }
}

/// The order of findings within a file: severity rank, then start line (0 when
/// there is none), then rule id.
pub open spec fn finding_key_lt(a: FindingView, b: FindingView) -> bool {
    let ra = severity_rank(a.severity);
    let rb = severity_rank(b.severity);
    let la: u32 = match a.line_start { Some(l) => l, None => 0 };
    let lb: u32 = match b.line_start { Some(l) => l, None => 0 };
    ra < rb || (ra == rb && (la < lb || (la == lb && str_lt(a.rule_id, b.rule_id))))
}

/// `s` with `x` put before the first element that comes after it.
pub open spec fn insert_in_order(s: Seq<FindingView>, x: FindingView) -> Seq<FindingView>
    decreases s.len(),
{
    if s.len() == 0 {
        seq![x]
    } else if finding_key_lt(x, s[0]) {
        seq![x] + s
    } else {
        seq![s[0]] + insert_in_order(s.drop_first(), x)
    }
}

/// `s` sorted by [`finding_key_lt`], findings that tie keeping their order (a
/// stable sort).
pub open spec fn stable_sorted(s: Seq<FindingView>) -> Seq<FindingView>
    decreases s.len(),
{
    if s.len() == 0 {
        Seq::empty()
    } else {
        insert_in_order(stable_sorted(s.drop_last()), s.last())
    }
}

/// The findings of `fs` in the file at `path`, in order.
pub open spec fn findings_in_file(fs: Seq<FindingView>, path: Seq<char>) -> Seq<FindingView>
    decreases fs.len(),
{
    if fs.len() == 0 {
        Seq::empty()
    } else if fs.last().file_path == path {
        findings_in_file(fs.drop_last(), path).push(fs.last())
    } else {
        findings_in_file(fs.drop_last(), path)
    }
}

/// The directories the findings of `fs` are listed under.
pub open spec fn finding_dirs(fs: Seq<FindingView>) -> Set<Seq<char>> {
    Set::new(|d: Seq<char>| exists|i: int| 0 <= i < fs.len() && parent_dir(#[trigger] fs[i].file_path) == d)
}

/// The files of `fs` listed under directory `dir`.
pub open spec fn files_in_dir(fs: Seq<FindingView>, dir: Seq<char>) -> Set<Seq<char>> {
    Set::new(|p: Seq<char>| exists|i: int| 0 <= i < fs.len() && #[trigger] fs[i].file_path == p && parent_dir(p) == dir)
}

/// The findings of one file in the report.
#[derive(Debug, Clone)]
pub struct FileReport {
    pub file_path: String,
    pub name: String,
    pub findings: Vec<Finding>,
}

/// The files of one directory in the report.
#[derive(Debug, Clone)]
pub struct DirReport {
    pub dir: String,
    pub files: Vec<FileReport>,
}

/// The word for `n` findings.
pub fn issues_label(n: usize) -> (r: &'static str)
    ensures
        r@ == (if n == 1 { "issue"@ } else { "issues"@ }),
{
    if n == 1 { "issue" } else { "issues" }
}


/// The summary row of the terminal report.
#[derive(Debug, Clone)]
pub struct SummaryRow {
    pub files: usize,
    pub issues: String,
    pub score: i32,
    pub status: String,
}

/// The status label of a total score, as `grade` gives it, in capitals.
pub open spec fn status_upper(score: i32) -> Seq<char> {
    if score < 10 {
        "HEALTHY"@
    } else if score < 20 {
        "WARNING"@
    } else {
        "FAIL"@
    }
}

/// The summary row of a scan result: the files scanned, the number of findings
/// followed by `issue` or `issues`, the total score, and the status in capitals.
pub fn summary_row(result: &ScanResult) -> (r: SummaryRow)
    ensures
        r.files == result.files_scanned,
        r.issues@ == decimal(result.findings@.len() as nat) + " "@ + (if result.findings@.len() == 1 {
            "issue"@
        } else {
            "issues"@
        }),
        r.score == result.total_score,
        r.status@ == status_upper(result.total_score),
{
    let n = result.findings.len();
    let mut issues = fmt_u64(n as u64);
    issues.append(" ");
    issues.append(issues_label(n));
    let status = if result.total_score < 10 {
        "HEALTHY".to_owned()
    } else if result.total_score < 20 {
        "WARNING".to_owned()
    } else {
        "FAIL".to_owned()
    };
    SummaryRow { files: result.files_scanned, issues, score: result.total_score, status }
}

/// Whether `a` comes before `b` within a file.
pub fn finding_key_less(a: &Finding, b: &Finding) -> (r: bool)
    ensures
        r == finding_key_lt(a@, b@),
{
    let ra = severity_order(a.severity.as_str());
    let rb = severity_order(b.severity.as_str());
    let la: u32 = match a.line_start { Some(l) => l, None => 0 };
    let lb: u32 = match b.line_start { Some(l) => l, None => 0 };
    if ra != rb {
        return ra < rb;
    }
    if la != lb {
        return la < lb;
    }
    let ka = chars_of(a.rule_id.as_str());
    let kb = chars_of(b.rule_id.as_str());
    seq_less(&ka, &kb, false)
}

/// Inserting in order puts `x` before the first element it comes before.
/// No finding of `s` comes before one that precedes it.
pub open spec fn findings_ordered(s: Seq<FindingView>) -> bool {
    forall|i: int, j: int| 0 <= i < j < s.len() ==> !finding_key_lt(#[trigger] s[j], #[trigger] s[i])
}

proof fn lemma_finding_key_lt_transitive(a: FindingView, b: FindingView, c: FindingView)
    requires
        finding_key_lt(a, b),
        finding_key_lt(b, c),
    ensures
        finding_key_lt(a, c),
{
    if str_lt(a.rule_id, b.rule_id) && str_lt(b.rule_id, c.rule_id) {
        lemma_seq_lt_transitive(a.rule_id, b.rule_id, c.rule_id, false);
    }
}

proof fn lemma_insert_ordered(s: Seq<FindingView>, x: FindingView)
    requires
        findings_ordered(s),
    ensures
        findings_ordered(insert_in_order(s, x)),
        insert_in_order(s, x).to_multiset() == s.to_multiset().insert(x),
    decreases s.len(),
{
    broadcast use vstd::seq_lib::group_to_multiset_ensures;

    if s.len() == 0 {
        assert(insert_in_order(s, x) =~= seq![x]);
        assert(seq![x] =~= Seq::<FindingView>::empty().push(x));
    } else if finding_key_lt(x, s[0]) {
        let r = seq![x] + s;
        assert forall|i: int, j: int| 0 <= i < j < r.len() implies !finding_key_lt(#[trigger] r[j], #[trigger] r[i]) by {
            if i == 0 {
                assert(r[j] == s[j - 1]);
                if finding_key_lt(s[j - 1], x) {
                    lemma_finding_key_lt_transitive(s[j - 1], x, s[0]);
                    if j - 1 > 0 {
                        assert(!finding_key_lt(s[j - 1], s[0]));
                    } else {
                        lemma_lt_irreflexive(s[0]);
                    }
                }
            } else {
                assert(r[i] == s[i - 1] && r[j] == s[j - 1]);
            }
        }
        assert(r =~= seq![x].add(s));
        vstd::seq_lib::lemma_multiset_commutative(seq![x], s);
        assert(seq![x] =~= Seq::<FindingView>::empty().push(x));
    } else {
        let t = s.drop_first();
        assert forall|i: int, j: int| 0 <= i < j < t.len() implies !finding_key_lt(#[trigger] t[j], #[trigger] t[i]) by {
            assert(t[i] == s[i + 1] && t[j] == s[j + 1]);
        }
        lemma_insert_ordered(t, x);
        let u = insert_in_order(t, x);
        let r = seq![s[0]] + u;
        assert(insert_in_order(s, x) == r);
        assert forall|i: int, j: int| 0 <= i < j < r.len() implies !finding_key_lt(#[trigger] r[j], #[trigger] r[i]) by {
            if i == 0 {
                let y = u[j - 1];
                assert(r[j] == y);
                assert(u.to_multiset().count(y) > 0);
                if y != x {
                    assert(t.to_multiset().count(y) > 0);
                    assert(t.contains(y));
                    let k = choose|k: int| 0 <= k < t.len() && t[k] == y;
                    assert(s[k + 1] == y);
                }
            } else {
                assert(r[i] == u[i - 1] && r[j] == u[j - 1]);
            }
        }
        vstd::seq_lib::lemma_multiset_commutative(seq![s[0]], u);
        vstd::seq_lib::lemma_multiset_commutative(seq![s[0]], t);
        assert(seq![s[0]] + t =~= s);
    }
}

proof fn lemma_lt_irreflexive(a: FindingView)
    ensures
        !finding_key_lt(a, a),
{
    crate::paths::lemma_seq_lt_asymmetric(a.rule_id, a.rule_id, false);
}

/// The within-file order of the report: [`stable_sorted`] puts the findings in
/// the order of [`finding_key_lt`] (severity, start line, rule id) and keeps each
/// finding exactly as often as it occurs.
pub proof fn lemma_stable_sorted(s: Seq<FindingView>)
    ensures
        findings_ordered(stable_sorted(s)),
        stable_sorted(s).to_multiset() == s.to_multiset(),
    decreases s.len(),
{
    broadcast use vstd::seq_lib::group_to_multiset_ensures;

    if s.len() > 0 {
        lemma_stable_sorted(s.drop_last());
        lemma_insert_ordered(stable_sorted(s.drop_last()), s.last());
        assert(s.drop_last().push(s.last()) =~= s);
    }
}

proof fn lemma_insert_in_order(s: Seq<FindingView>, x: FindingView, p: int)
    requires
        0 <= p <= s.len(),
        forall|k: int| 0 <= k < p ==> !finding_key_lt(x, #[trigger] s[k]),
        p < s.len() ==> finding_key_lt(x, s[p]),
    ensures
        insert_in_order(s, x) == s.insert(p, x),
    decreases s.len(),
{
    if s.len() == 0 {
        assert(s.insert(p, x) =~= seq![x]);
    } else if p == 0 {
        assert(s.insert(0, x) =~= seq![x] + s);
    } else {
        assert(!finding_key_lt(x, s[0]));
        let t = s.drop_first();
        assert forall|k: int| 0 <= k < p - 1 implies !finding_key_lt(x, #[trigger] t[k]) by {
            assert(t[k] == s[k + 1]);
        }
        if p < s.len() {
            assert(t[p - 1] == s[p]);
        }
        lemma_insert_in_order(t, x, p - 1);
        assert(seq![s[0]] + t.insert(p - 1, x) =~= s.insert(p, x));
    }
}

/// `v` sorted within a file, ties keeping their order.
pub fn stable_sort_findings(v: &Vec<Finding>) -> (r: Vec<Finding>)
    ensures
        finding_views(r@) == stable_sorted(finding_views(v@)),
{
    let ghost fv = finding_views(v@);
    let mut out: Vec<Finding> = Vec::new();
    let mut i: usize = 0;
    while i < v.len()
        invariant
            i <= v@.len(),
            fv == finding_views(v@),
            finding_views(out@) == stable_sorted(fv.take(i as int)),
        decreases v.len() - i,
    {
        let x = &v[i];
        let mut p: usize = 0;
        while p < out.len() && !finding_key_less(x, &out[p])
            invariant
                p <= out@.len(),
                forall|k: int| 0 <= k < p ==> !finding_key_lt(x@, #[trigger] finding_views(out@)[k]),
            decreases out.len() - p,
        {
            assert(finding_views(out@)[p as int] == out@[p as int]@);
            p += 1;
        }
        let ghost before = finding_views(out@);
        proof {
            if p < out.len() {
                assert(before[p as int] == out@[p as int]@);
            }
            lemma_insert_in_order(before, x@, p as int);
            assert(fv.take(i + 1).drop_last() == fv.take(i as int));
            assert(fv.take(i + 1).last() == x@);
        }
        out.insert(p, x.clone());
        assert(finding_views(out@) =~= before.insert(p as int, x@));
        i += 1;
    }
    assert(fv.take(v@.len() as int) == fv);
    out
}

/// The findings of `v` in the file at `path`, in order.
fn findings_of_file(v: &Vec<Finding>, path: &str) -> (r: Vec<Finding>)
    ensures
        finding_views(r@) == findings_in_file(finding_views(v@), path@),
{
    let ghost fv = finding_views(v@);
    let mut out: Vec<Finding> = Vec::new();
    let mut i: usize = 0;
    while i < v.len()
        invariant
            i <= v@.len(),
            fv == finding_views(v@),
            finding_views(out@) == findings_in_file(fv.take(i as int), path@),
        decreases v.len() - i,
    {
        assert(fv.take(i + 1).drop_last() == fv.take(i as int));
        assert(fv.take(i + 1).last() == v@[i as int]@);
        if crate::text::str_eq(v[i].file_path.as_str(), path) {
            let ghost before = finding_views(out@);
            out.push(v[i].clone());
            assert(finding_views(out@) =~= before.push(v@[i as int]@));
        }
        i += 1;
    }
    assert(fv.take(v@.len() as int) == fv);
    out
}

/// The name a file is listed by.
pub fn listed_name_of(p: &str) -> (r: String)
    ensures
        r@ == listed_name(p@),
{
    let n = file_name_of(p);
    if n.as_str().is_empty() {
        p.to_owned()
    } else {
        n
    }
}

/// The report of `findings` for the terminal: the directories their files are
/// listed under, each once and in string order; in each, the files listed under
/// it, each once and in string order; in each file, its findings sorted by
/// severity, start line and rule id, ties keeping their order.
pub fn terminal_report(findings: &Vec<Finding>) -> (r: Vec<DirReport>)
    ensures
        sorted_by(r@.map_values(|d: DirReport| d.dir@), false),
        r@.map_values(|d: DirReport| d.dir@).no_duplicates(),
        r@.map_values(|d: DirReport| d.dir@).to_set() == finding_dirs(finding_views(findings@)),
        forall|i: int| 0 <= i < r@.len() ==> {
            let files = (#[trigger] r@[i]).files@.map_values(|f: FileReport| f.file_path@);
            &&& sorted_by(files, false)
            &&& files.no_duplicates()
            &&& files.to_set() == files_in_dir(finding_views(findings@), r@[i].dir@)
            &&& forall|j: int| 0 <= j < r@[i].files@.len() ==> {
                let f = #[trigger] r@[i].files@[j];
                &&& f.name@ == listed_name(f.file_path@)
                &&& finding_views(f.findings@) == stable_sorted(findings_in_file(finding_views(findings@), f.file_path@))
            }
        },
{
    let ghost fv = finding_views(findings@);
    let mut all_dirs: Vec<String> = Vec::new();
    let mut i: usize = 0;
    while i < findings.len()
        invariant
            i <= findings@.len(),
            fv == finding_views(findings@),
            all_dirs@.len() == i,
            forall|k: int| 0 <= k < i ==> #[trigger] all_dirs@[k]@ == parent_dir(fv[k].file_path),
        decreases findings.len() - i,
    {
        all_dirs.push(parent_dir_of(findings[i].file_path.as_str()));
        i += 1;
    }
    let dirs = distinct_sorted(&all_dirs, false);
    proof {
        assert(views(all_dirs@).to_set() =~= finding_dirs(fv)) by {
            assert forall|d: Seq<char>| views(all_dirs@).to_set().contains(d) <==> finding_dirs(fv).contains(d) by {
                if views(all_dirs@).to_set().contains(d) {
                    let k = choose|k: int| 0 <= k < views(all_dirs@).len() && views(all_dirs@)[k] == d;
                    assert(parent_dir(fv[k].file_path) == d);
                }
                if finding_dirs(fv).contains(d) {
                    let k = choose|k: int| 0 <= k < fv.len() && parent_dir(#[trigger] fv[k].file_path) == d;
                    assert(views(all_dirs@)[k] == d);
                    assert(views(all_dirs@).contains(d));
                }
            }
        }
    }
    let mut out: Vec<DirReport> = Vec::new();
    let mut g: usize = 0;
    while g < dirs.len()
        invariant
            g <= dirs@.len(),
            fv == finding_views(findings@),
            out@.len() == g,
            forall|k: int| 0 <= k < g ==> (#[trigger] out@[k]).dir@ == dirs@[k]@,
            forall|i: int| 0 <= i < out@.len() ==> {
                let files = (#[trigger] out@[i]).files@.map_values(|f: FileReport| f.file_path@);
                &&& sorted_by(files, false)
                &&& files.no_duplicates()
                &&& files.to_set() == files_in_dir(fv, out@[i].dir@)
                &&& forall|j: int| 0 <= j < out@[i].files@.len() ==> {
                    let f = #[trigger] out@[i].files@[j];
                    &&& f.name@ == listed_name(f.file_path@)
                    &&& finding_views(f.findings@) == stable_sorted(findings_in_file(fv, f.file_path@))
                }
            },
        decreases dirs.len() - g,
    {
        let dir = dirs[g].as_str();
        let mut paths: Vec<String> = Vec::new();
        let mut k: usize = 0;
        while k < findings.len()
            invariant
                k <= findings@.len(),
                fv == finding_views(findings@),
                forall|a: int| 0 <= a < paths@.len() ==> files_in_dir(fv, dir@).contains(#[trigger] paths@[a]@),
                forall|a: int| 0 <= a < k && parent_dir(#[trigger] fv[a].file_path) == dir@ ==> views(paths@).contains(fv[a].file_path),
            decreases findings.len() - k,
        {
            let p = findings[k].file_path.as_str();
            assert(fv[k as int].file_path == p@);
            let pd = parent_dir_of(p);
            if crate::text::str_eq(pd.as_str(), dir) {
                let ghost before = paths@;
                paths.push(p.to_owned());
                proof {
                    assert(files_in_dir(fv, dir@).contains(p@));
                    assert(views(paths@)[paths@.len() - 1] == p@);
                    assert forall|a: int| 0 <= a < k && parent_dir(#[trigger] fv[a].file_path) == dir@ implies views(paths@).contains(fv[a].file_path) by {
                        let b = choose|b: int| 0 <= b < views(before).len() && views(before)[b] == fv[a].file_path;
                        assert(views(paths@)[b] == views(before)[b]);
                    }
                }
            }
            k += 1;
        }
        let files = distinct_sorted(&paths, false);
        proof {
            assert(views(paths@).to_set() =~= files_in_dir(fv, dir@)) by {
                assert forall|p: Seq<char>| views(paths@).to_set().contains(p) <==> files_in_dir(fv, dir@).contains(p) by {
                    if views(paths@).to_set().contains(p) {
                        let a = choose|a: int| 0 <= a < views(paths@).len() && views(paths@)[a] == p;
                        assert(files_in_dir(fv, dir@).contains(paths@[a]@));
                    }
                    if files_in_dir(fv, dir@).contains(p) {
                        let a = choose|a: int| 0 <= a < fv.len() && #[trigger] fv[a].file_path == p && parent_dir(p) == dir@;
                        assert(views(paths@).contains(fv[a].file_path));
                    }
                }
            }
        }
        let mut reports: Vec<FileReport> = Vec::new();
        let mut j: usize = 0;
        while j < files.len()
            invariant
                j <= files@.len(),
                fv == finding_views(findings@),
                reports@.len() == j,
                forall|a: int| 0 <= a < j ==> (#[trigger] reports@[a]).file_path@ == files@[a]@,
                forall|a: int| 0 <= a < reports@.len() ==> {
                    let f = #[trigger] reports@[a];
                    &&& f.name@ == listed_name(f.file_path@)
                    &&& finding_views(f.findings@) == stable_sorted(findings_in_file(fv, f.file_path@))
                },
            decreases files.len() - j,
        {
            let p = files[j].as_str();
            let mine = findings_of_file(findings, p);
            let sorted = stable_sort_findings(&mine);
            reports.push(FileReport { file_path: p.to_owned(), name: listed_name_of(p), findings: sorted });
            j += 1;
        }
        assert(reports@.map_values(|f: FileReport| f.file_path@) =~= views(files@));
        out.push(DirReport { dir: dir.to_owned(), files: reports });
        g += 1;
    }
    assert(out@.map_values(|d: DirReport| d.dir@) =~= views(dirs@));
    out
}

} // verus!
