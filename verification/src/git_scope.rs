//! Paths changed against a git ref (`git diff <ref> --name-only --diff-filter=ACMR`):
//! reading what git printed, and choosing the files to scan from it.

use vstd::prelude::*;
use crate::config::Config;
use crate::paths::{path_sorted, sort_paths};
use crate::text::{
    contains_str, decode_utf8_lossy, lines, lines_of, normalized, trim, trim_str, trimmed_nonempty,
    utf8_lossy, views,
};
use crate::walker::{
    lemma_scanned_paths_distinct, path_matches_scan, scanned_paths, ScanCandidate,
};

verus! {

/// The error for an empty answer from `git rev-parse --show-toplevel`.
pub open spec fn empty_toplevel_message() -> Seq<char> {
    "git rev-parse --show-toplevel returned empty output"@
}

/// The work-tree root from what `git rev-parse --show-toplevel` printed: the
/// output trimmed, or an error when nothing is left.
pub fn git_repo_root(stdout: &str) -> (r: Result<String, String>)
    ensures
        match r {
            Ok(root) => root@ == trim(stdout@) && root@.len() > 0,
            Err(m) => trim(stdout@).len() == 0 && m@ == empty_toplevel_message(),
        },
{
    let out = trim_str(stdout);
    if out.as_str().is_empty() {
        return Err("git rev-parse --show-toplevel returned empty output".to_owned());
    }
    Ok(out)
}

/// The message for a git command that failed: its error output, trimmed; else its
/// standard output, trimmed; else the exit status (`status` as git's process
/// reported it). Both outputs are decoded as UTF-8 with invalid sequences replaced.
pub open spec fn git_failure_text(stderr: Seq<u8>, stdout: Seq<u8>, status: Seq<char>) -> Seq<char> {
    let e = trim(utf8_lossy(stderr));
    let o = trim(utf8_lossy(stdout));
    let msg = if e.len() == 0 { o } else { e };
    if msg.len() == 0 {
        "git exited with status "@ + status
    } else {
        msg
    }
}

/// The message for a git command that failed.
pub fn git_failure_message(stderr: &[u8], stdout: &[u8], status: &str) -> (r: String)
    ensures
        r@ == git_failure_text(stderr@, stdout@, status@),
{
    let e = trim_str(decode_utf8_lossy(stderr).as_str());
    let o = trim_str(decode_utf8_lossy(stdout).as_str());
    let msg = if e.as_str().is_empty() { o } else { e };
    if msg.as_str().is_empty() {
        let mut r = "git exited with status ".to_owned();
        r.append(status);
        r
    } else {
        msg
    }
}

/// The changed paths from what `git diff --name-only` printed: its lines trimmed,
/// blank ones left out.
pub fn git_changed_paths(stdout: &str) -> (r: Vec<String>)
    ensures
        views(r@) == normalized(lines(stdout@)),
{
    let ls = lines_of(stdout);
    trimmed_nonempty(&ls)
}

/// The arguments git is run with to find the work-tree root.
pub fn toplevel_args() -> (r: Vec<String>)
    ensures
        views(r@) == seq!["rev-parse"@, "--show-toplevel"@],
{
    let r = vec!["rev-parse".to_owned(), "--show-toplevel".to_owned()];
    assert(views(r@) =~= seq!["rev-parse"@, "--show-toplevel"@]);
    r
}

/// The arguments git is run with to list the paths changed against `ref_name`.
pub fn diff_args(ref_name: &str) -> (r: Vec<String>)
    ensures
        views(r@) == seq!["diff"@, "--name-only"@, "--diff-filter=ACMR"@, ref_name@, "--"@],
{
    let r = vec![
        "diff".to_owned(),
        "--name-only".to_owned(),
        "--diff-filter=ACMR".to_owned(),
        ref_name.to_owned(),
        "--".to_owned(),
    ];
    assert(views(r@) =~= seq!["diff"@, "--name-only"@, "--diff-filter=ACMR"@, ref_name@, "--"@]);
    r
}

/// The work-tree root from how `git rev-parse --show-toplevel` ended: its
/// failure message when it failed, else its output decoded and trimmed, or an
/// error when that is empty.
pub fn repo_root_from_output(success: bool, stdout: &[u8], stderr: &[u8], status: &str) -> (r: Result<String, String>)
    ensures
        !success ==> (r matches Err(m) && m@ == git_failure_text(stderr@, stdout@, status@)),
        success ==> match r {
            Ok(root) => root@ == trim(utf8_lossy(stdout@)) && root@.len() > 0,
            Err(m) => trim(utf8_lossy(stdout@)).len() == 0 && m@ == empty_toplevel_message(),
        },
{
    if !success {
        return Err(git_failure_message(stderr, stdout, status));
    }
    let out = decode_utf8_lossy(stdout);
    git_repo_root(out.as_str())
}

/// The changed paths from how `git diff --name-only` ended: its failure message
/// when it failed, else its output decoded, split into lines, trimmed, blank ones
/// left out, in git's order.
pub fn changed_paths_from_output(success: bool, stdout: &[u8], stderr: &[u8], status: &str) -> (r: Result<Vec<String>, String>)
    ensures
        !success ==> (r matches Err(m) && m@ == git_failure_text(stderr@, stdout@, status@)),
        success ==> (r matches Ok(v) && views(v@) == normalized(lines(utf8_lossy(stdout@)))),
{
    if !success {
        return Err(git_failure_message(stderr, stdout, status));
    }
    let out = decode_utf8_lossy(stdout);
    Ok(git_changed_paths(out.as_str()))
}

/// Whether some candidate of `s` has path `p`.
pub open spec fn has_path(s: Seq<ScanCandidate>, p: Seq<char>) -> bool {
    exists|i: int| 0 <= i < s.len() && (#[trigger] s[i]).path@ == p
}

/// The candidates that were found, each path kept at its first occurrence only.
pub open spec fn first_found(s: Seq<Option<ScanCandidate>>) -> Seq<ScanCandidate>
    decreases s.len(),
{
    if s.len() == 0 {
        Seq::empty()
    } else {
        let d = first_found(s.drop_last());
        match s.last() {
            Some(k) => if has_path(d, k.path@) {
                d
            } else {
                d.push(k)
            },
            None => d,
        }
    }
}

/// The candidates `first_found` keeps have different paths.
pub proof fn lemma_first_found_distinct(s: Seq<Option<ScanCandidate>>)
    ensures
        forall|i: int, j: int| 0 <= i < j < first_found(s).len() ==> (#[trigger] first_found(s)[i]).path@ != (#[trigger] first_found(s)[j]).path@,
    decreases s.len(),
{
    if s.len() > 0 {
        lemma_first_found_distinct(s.drop_last());
        let d = first_found(s.drop_last());
        match s.last() {
            Some(k) => {
                if !has_path(d, k.path@) {
                    assert forall|i: int, j: int| 0 <= i < j < first_found(s).len() implies (#[trigger] first_found(s)[i]).path@ != (#[trigger] first_found(s)[j]).path@ by {
                        if j == d.len() {
                            assert(first_found(s)[i] == d[i]);
                        } else {
                            assert(first_found(s)[i] == d[i] && first_found(s)[j] == d[j]);
                        }
                    }
                }
            },
            None => {},
        }
    }
}

/// The files to scan among the changed paths: `candidates` holds, for each changed
/// path, what the file system said of it, or `None` where it could not be resolved.
/// Each path counts once, and the result is in path order.
pub fn scan_paths_from_git_diff(candidates: &Vec<Option<ScanCandidate>>, config: &Config) -> (r: Vec<String>)
    ensures
        views(r@).to_multiset() == scanned_paths(first_found(candidates@), config@).to_multiset(),
        path_sorted(views(r@)),
        views(r@).no_duplicates(),
{
    broadcast use vstd::seq_lib::group_to_multiset_ensures;

    let mut seen: Vec<ScanCandidate> = Vec::new();
    let mut seen_paths: Vec<String> = Vec::new();
    let mut i: usize = 0;
    while i < candidates.len()
        invariant
            i <= candidates@.len(),
            seen@ == first_found(candidates@.take(i as int)),
            seen_paths@.len() == seen@.len(),
            forall|k: int| 0 <= k < seen@.len() ==> #[trigger] seen_paths@[k]@ == seen@[k].path@,
        decreases candidates.len() - i,
    {
        assert(candidates@.take(i + 1).drop_last() == candidates@.take(i as int));
        match &candidates[i] {
            Some(k) => {
                let known = contains_str(&seen_paths, k.path.as_str());
                proof {
                    if known {
                        let j = choose|j: int| 0 <= j < views(seen_paths@).len() && views(seen_paths@)[j] == k.path@;
                        assert(seen@[j].path@ == k.path@);
                        assert(has_path(seen@, k.path@));
                    } else {
                        assert forall|j: int| 0 <= j < seen@.len() implies (#[trigger] seen@[j]).path@ != k.path@ by {
                            assert(views(seen_paths@)[j] == seen_paths@[j]@);
                        }
                    }
                }
                if !known {
                    seen.push(k.clone());
                    seen_paths.push(k.path.clone());
                }
            },
            None => {},
        }
        i += 1;
    }
    assert(candidates@.take(candidates@.len() as int) == candidates@);
    let mut kept: Vec<String> = Vec::new();
    let mut j: usize = 0;
    while j < seen.len()
        invariant
            j <= seen@.len(),
            views(kept@) == scanned_paths(seen@.take(j as int), config@),
        decreases seen.len() - j,
    {
        assert(seen@.take(j + 1).drop_last() == seen@.take(j as int));
        if path_matches_scan(&seen[j], config) {
            let p = seen[j].path.clone();
            let ghost before = kept@;
            kept.push(p);
            assert(views(kept@) =~= views(before).push(p@));
        }
        j += 1;
    }
    assert(seen@.take(seen@.len() as int) == seen@);
    let ghost before = views(kept@);
    let r = sort_paths(kept);
    proof {
        lemma_first_found_distinct(candidates@);
        lemma_scanned_paths_distinct(seen@, config@);
        before.lemma_multiset_has_no_duplicates();
        let s = views(r@);
        assert forall|x: Seq<char>| s.to_multiset().contains(x) implies s.to_multiset().count(x) == 1 by {
            assert(before.to_multiset().contains(x));
        }
        s.lemma_multiset_has_no_duplicates_conv();
    }
    r
}

} // verus!
