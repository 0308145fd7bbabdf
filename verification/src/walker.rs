//! Which files a scan covers, and in what order.

use vstd::prelude::*;
use crate::config::{Config, ConfigView};
use crate::paths::{
    components, components_of, extension, extension_of, file_name, file_name_of, path_sorted,
    sort_paths,
};
use crate::text::{
    any_eq_ignore_ascii_case, contains_ignore_ascii_case, contains_str, lowercase, to_lowercase,
    views,
};

verus! {

/// What the file system said of a path that may be scanned: its canonical form,
/// whether it is a regular file, and its form relative to the canonical scan root
/// (with `/` separators), if it lies under that root.
#[derive(Debug)]
pub struct ScanCandidate {
    pub path: String,
    pub is_file: bool,
    pub rel: Option<String>,
}

impl Clone for ScanCandidate {
    fn clone(&self) -> (r: Self)
        ensures
            r == *self,
    {
        ScanCandidate {
            path: self.path.clone(),
            is_file: self.is_file,
            rel: match &self.rel {
                Some(x) => Some(x.clone()),
                None => None,
            },
        }
    }
}

/// The suffix a file name is matched by: `.` and its extension lower-cased, or
/// nothing when it has no extension.
pub open spec fn scan_suffix(name: Seq<char>) -> Seq<char> {
    match extension(name) {
        Some(e) => seq!['.'] + lowercase(e),
        None => Seq::empty(),
    }
}

/// The suffix a file name is matched by.
pub fn suffix_of(name: &str) -> (r: String)
    ensures
        r@ == scan_suffix(name@),
{
    match extension_of(name) {
        Some(e) => {
            let mut r = String::new();
            crate::text::push_char(&mut r, '.');
            let l = to_lowercase(e.as_str());
            r.append(l.as_str());
            r
        },
        None => String::new(),
    }
}

/// Whether the file at canonical path `path`, which is `rel` below the scan root,
/// is one the settings `c` scan: no component of `rel` is an excluded directory,
/// neither its file name nor `rel` is an excluded file, and its suffix is one of
/// the included extensions (ASCII case aside).
pub open spec fn scanned(path: Seq<char>, rel: Seq<char>, c: ConfigView) -> bool {
    &&& forall|i: int| 0 <= i < components(rel).len() ==> !c.exclude_dirs.contains(#[trigger] components(rel)[i])
    &&& !c.exclude_files.contains(file_name(path))
    &&& !c.exclude_files.contains(rel)
    &&& contains_ignore_ascii_case(c.include_extensions, scan_suffix(file_name(path)))
}

/// Whether the candidate is a regular file under the root that `c` scans.
pub open spec fn candidate_scanned(k: ScanCandidate, c: ConfigView) -> bool {
    k.is_file && match k.rel {
        Some(rel) => scanned(k.path@, rel@, c),
        None => false,
    }
}

/// Whether the settings scan the file at `path`, which is `rel` below the root.
fn rel_matches(path: &str, rel: &str, config: &Config) -> (r: bool)
    ensures
        r == scanned(path@, rel@, config@),
{
    let parts = components_of(rel);
    let mut i: usize = 0;
    while i < parts.len()
        invariant
            i <= parts@.len(),
            views(parts@) == components(rel@),
            forall|k: int|
                0 <= k < i ==> !views(config.exclude_dirs@).contains(#[trigger] components(rel@)[k]),
        decreases parts.len() - i,
    {
        assert(views(parts@)[i as int] == parts@[i as int]@);
        if contains_str(&config.exclude_dirs, parts[i].as_str()) {
            assert(config@.exclude_dirs.contains(components(rel@)[i as int]));
            return false;
        }
        i += 1;
    }
    let name = file_name_of(path);
    if contains_str(&config.exclude_files, name.as_str()) || contains_str(&config.exclude_files, rel) {
        return false;
    }
    let suffix = suffix_of(name.as_str());
    any_eq_ignore_ascii_case(&config.include_extensions, suffix.as_str())
}

/// Whether the scan covers this candidate.
pub fn path_matches_scan(candidate: &ScanCandidate, config: &Config) -> (r: bool)
    ensures
        r == candidate_scanned(*candidate, config@),
{
    if !candidate.is_file {
        return false;
    }
    match &candidate.rel {
        Some(rel) => rel_matches(candidate.path.as_str(), rel.as_str(), config),
        None => false,
    }
}

/// Whether a directory with this name is skipped when walking the tree.
pub fn dir_is_excluded(name: &str, config: &Config) -> (r: bool)
    ensures
        r == config@.exclude_dirs.contains(name@),
{
    contains_str(&config.exclude_dirs, name)
}

/// The paths of the candidates that `c` scans, in order.
pub open spec fn scanned_paths(s: Seq<ScanCandidate>, c: ConfigView) -> Seq<Seq<char>>
    decreases s.len(),
{
    if s.len() == 0 {
        Seq::empty()
    } else if candidate_scanned(s.last(), c) {
        scanned_paths(s.drop_last(), c).push(s.last().path@)
    } else {
        scanned_paths(s.drop_last(), c)
    }
}

/// Every path `scanned_paths` gives is the path of one of the candidates.
pub proof fn lemma_scanned_paths_from(s: Seq<ScanCandidate>, c: ConfigView)
    ensures
        forall|i: int| 0 <= i < scanned_paths(s, c).len() ==> exists|j: int| 0 <= j < s.len() && #[trigger] scanned_paths(s, c)[i] == s[j].path@,
    decreases s.len(),
{
    if s.len() > 0 {
        lemma_scanned_paths_from(s.drop_last(), c);
        let p = scanned_paths(s.drop_last(), c);
        assert forall|i: int| 0 <= i < scanned_paths(s, c).len() implies exists|j: int| 0 <= j < s.len() && #[trigger] scanned_paths(s, c)[i] == s[j].path@ by {
            if i < p.len() {
                assert(scanned_paths(s, c)[i] == p[i]);
                let j = choose|j: int| 0 <= j < s.drop_last().len() && p[i] == s.drop_last()[j].path@;
                assert(s[j] == s.drop_last()[j]);
            } else {
                assert(scanned_paths(s, c)[i] == s.last().path@);
            }
        }
    }
}

/// Candidates with different paths give each scanned path once.
pub proof fn lemma_scanned_paths_distinct(s: Seq<ScanCandidate>, c: ConfigView)
    requires
        forall|i: int, j: int| 0 <= i < j < s.len() ==> (#[trigger] s[i]).path@ != (#[trigger] s[j]).path@,
    ensures
        scanned_paths(s, c).no_duplicates(),
    decreases s.len(),
{
    if s.len() > 0 {
        let t = s.drop_last();
        assert forall|i: int, j: int| 0 <= i < j < t.len() implies (#[trigger] t[i]).path@ != (#[trigger] t[j]).path@ by {
            assert(t[i] == s[i] && t[j] == s[j]);
        }
        lemma_scanned_paths_distinct(t, c);
        lemma_scanned_paths_from(t, c);
        let p = scanned_paths(t, c);
        if candidate_scanned(s.last(), c) {
            assert forall|a: int, b: int| 0 <= a < b < scanned_paths(s, c).len() implies scanned_paths(s, c)[a] != scanned_paths(s, c)[b] by {
                if b == p.len() {
                    let j = choose|j: int| 0 <= j < t.len() && #[trigger] p[a] == t[j].path@;
                    assert(t[j] == s[j]);
                    assert(s[j].path@ != s[s.len() - 1].path@);
                }
            }
        }
    }
}

/// The files found under the scan root that the settings cover, in path order.
pub fn walk_repo(candidates: &Vec<ScanCandidate>, config: &Config) -> (r: Vec<String>)
    ensures
        views(r@).to_multiset() == scanned_paths(candidates@, config@).to_multiset(),
        path_sorted(views(r@)),
        (forall|i: int, j: int|
            0 <= i < j < candidates@.len() ==> (#[trigger] candidates@[i]).path@
                != (#[trigger] candidates@[j]).path@) ==> views(r@).no_duplicates(),
{
    broadcast use vstd::seq_lib::group_to_multiset_ensures;

    let mut kept: Vec<String> = Vec::new();
    let mut i: usize = 0;
    while i < candidates.len()
        invariant
            i <= candidates@.len(),
            views(kept@) == scanned_paths(candidates@.take(i as int), config@),
        decreases candidates.len() - i,
    {
        assert(candidates@.take(i + 1).drop_last() == candidates@.take(i as int));
        if path_matches_scan(&candidates[i], config) {
            let p = candidates[i].path.clone();
            let ghost before = kept@;
            kept.push(p);
            assert(views(kept@) =~= views(before).push(p@));
        }
        i += 1;
    }
    assert(candidates@.take(candidates@.len() as int) == candidates@);
    let ghost before = views(kept@);
    let r = sort_paths(kept);
    proof {
        if forall|i: int, j: int|
            0 <= i < j < candidates@.len() ==> (#[trigger] candidates@[i]).path@
                != (#[trigger] candidates@[j]).path@ {
            lemma_scanned_paths_distinct(candidates@, config@);
            before.lemma_multiset_has_no_duplicates();
            let s = views(r@);
            assert forall|x: Seq<char>| s.to_multiset().contains(x) implies s.to_multiset().count(x) == 1 by {
                assert(before.to_multiset().contains(x));
            }
            s.lemma_multiset_has_no_duplicates_conv();
        }
    }
    r
}

/// A file whose name, or whose path below the root, is listed among the excluded
/// files is never scanned, wherever it lies below the root.
pub proof fn lemma_excluded_files_not_scanned(k: ScanCandidate, c: ConfigView)
    requires
        c.exclude_files.contains(file_name(k.path@)) || (k.rel matches Some(r) && c.exclude_files.contains(r@)),
    ensures
        !candidate_scanned(k, c),
{
}

/// No path a walk keeps has an excluded file name, lies in an excluded directory,
/// or lacks an included extension.
pub proof fn lemma_walk_keeps_no_excluded_file(s: Seq<ScanCandidate>, c: ConfigView)
    ensures
        forall|i: int| 0 <= i < scanned_paths(s, c).len() ==> {
            &&& !c.exclude_files.contains(file_name(#[trigger] scanned_paths(s, c)[i]))
            &&& contains_ignore_ascii_case(c.include_extensions, scan_suffix(file_name(scanned_paths(s, c)[i])))
        },
    decreases s.len(),
{
    if s.len() > 0 {
        lemma_walk_keeps_no_excluded_file(s.drop_last(), c);
        let p = scanned_paths(s.drop_last(), c);
        assert forall|i: int| 0 <= i < scanned_paths(s, c).len() implies {
            &&& !c.exclude_files.contains(file_name(#[trigger] scanned_paths(s, c)[i]))
            &&& contains_ignore_ascii_case(c.include_extensions, scan_suffix(file_name(scanned_paths(s, c)[i])))
        } by {
            if i < p.len() {
                assert(scanned_paths(s, c)[i] == p[i]);
            }
        }
    }
}

/// Which candidates are scanned: exactly the regular files below the root none of
/// whose relative path components is an excluded directory, whose file name and
/// relative path are not excluded files, and whose suffix is an included
/// extension (ASCII case aside).
pub proof fn lemma_candidate_scanned_exactly(k: ScanCandidate, c: ConfigView)
    ensures
        candidate_scanned(k, c) <==> {
            &&& k.is_file
            &&& k.rel is Some
            &&& forall|i: int| 0 <= i < components(k.rel->0@).len() ==> !c.exclude_dirs.contains(
                #[trigger] components(k.rel->0@)[i],
            )
            &&& !c.exclude_files.contains(file_name(k.path@))
            &&& !c.exclude_files.contains(k.rel->0@)
            &&& contains_ignore_ascii_case(c.include_extensions, scan_suffix(file_name(k.path@)))
        },
{
}

} // verus!
