//! Paths as text: `/`-separated components, file names, stems and extensions,
//! with the meanings `std::path::Path` gives them.

use vstd::prelude::*;
use crate::text::{chars_of, split, split_on, str_eq, string_from_range, views};

verus! {

/// The pieces of `v` that are not empty.
pub open spec fn nonempty(v: Seq<Seq<char>>) -> Seq<Seq<char>>
    decreases v.len(),
{
    if v.len() == 0 {
        Seq::empty()
    } else if v.last().len() > 0 {
        nonempty(v.drop_last()).push(v.last())
    } else {
        nonempty(v.drop_last())
    }
}

/// The components of path `p`: its `/`-separated pieces, empty ones left out.
pub open spec fn components(p: Seq<char>) -> Seq<Seq<char>> {
    nonempty(split(p, '/'))
}

/// The components of path `p`.
pub fn components_of(p: &str) -> (r: Vec<String>)
    ensures
        views(r@) == components(p@),
{
    let pieces = split_on(p, '/');
    let mut out: Vec<String> = Vec::new();
    let mut i: usize = 0;
    while i < pieces.len()
        invariant
            i <= pieces@.len(),
            views(out@) == nonempty(views(pieces@).take(i as int)),
        decreases pieces.len() - i,
    {
        assert(views(pieces@).take(i + 1).drop_last() == views(pieces@).take(i as int));
        if !pieces[i].as_str().is_empty() {
            let ghost before = out@;
            out.push(pieces[i].clone());
            assert(views(out@) =~= views(before).push(pieces@[i as int]@));
        }
        i += 1;
    }
    assert(views(pieces@).take(pieces@.len() as int) == views(pieces@));
    out
}

/// The final component of `p` (`Path::file_name`), or nothing when there is none
/// or it is `..`.
pub open spec fn file_name(p: Seq<char>) -> Seq<char> {
    let c = components(p);
    if c.len() == 0 || c.last() == ".."@ {
        Seq::empty()
    } else {
        c.last()
    }
}

/// The final component of `p`, or the empty string.
pub fn file_name_of(p: &str) -> (r: String)
    ensures
        r@ == file_name(p@),
{
    let c = components_of(p);
    if c.len() == 0 {
        String::new()
    } else {
        let last = &c[c.len() - 1];
        if str_eq(last.as_str(), "..") {
            String::new()
        } else {
            last.clone()
        }
    }
}

/// The index of the last `.` in `s`.
pub open spec fn last_dot(s: Seq<char>) -> Option<int>
    decreases s.len(),
{
    if s.len() == 0 {
        None
    } else if s.last() == '.' {
        Some(s.len() - 1)
    } else {
        last_dot(s.drop_last())
    }
}

/// The extension of file name `name` (`Path::extension`): the text after its last
/// `.`, unless that `.` is its first character or there is none.
pub open spec fn extension(name: Seq<char>) -> Option<Seq<char>> {
    match last_dot(name) {
        Some(i) => if i > 0 && name != ".."@ {
            Some(name.skip(i + 1))
        } else {
            None
        },
        None => None,
    }
}

/// The stem of file name `name` (`Path::file_stem`): the text before its last `.`,
/// or all of it when it has no extension.
pub open spec fn file_stem(name: Seq<char>) -> Seq<char> {
    match last_dot(name) {
        Some(i) => if i > 0 && name != ".."@ {
            name.take(i)
        } else {
            name
        },
        None => name,
    }
}

proof fn lemma_last_dot_none(s: Seq<char>, j: int)
    requires
        0 <= j <= s.len(),
        forall|k: int| j <= k < s.len() ==> #[trigger] s[k] != '.',
    ensures
        last_dot(s) == last_dot(s.take(j)),
    decreases s.len() - j,
{
    if j < s.len() {
        assert(s.drop_last().take(j) == s.take(j));
        lemma_last_dot_none(s.drop_last(), j);
    } else {
        assert(s.take(j) == s);
    }
}

/// Where the last `.` of `v` is.
fn find_last_dot(v: &Vec<char>) -> (r: Option<usize>)
    ensures
        match r {
            Some(i) => last_dot(v@) == Some(i as int) && i < v@.len(),
            None => last_dot(v@) is None,
        },
{
    let mut j = v.len();
    while j > 0 && v[j - 1] != '.'
        invariant
            j <= v@.len(),
            forall|k: int| j <= k < v@.len() ==> #[trigger] v@[k] != '.',
        decreases j,
    {
        j -= 1;
    }
    proof {
        lemma_last_dot_none(v@, j as int);
        let t = v@.take(j as int);
        if j > 0 {
            assert(t.last() == v@[j - 1]);
        }
    }
    if j == 0 {
        None
    } else {
        Some(j - 1)
    }
}

/// The extension of file name `name`.
pub fn extension_of(name: &str) -> (r: Option<String>)
    ensures
        match r {
            Some(e) => extension(name@) == Some(e@),
            None => extension(name@) is None,
        },
{
    let v = chars_of(name);
    match find_last_dot(&v) {
        Some(i) => {
            let n = v.len();
            assert(i < n);
            if i > 0 && !str_eq(name, "..") {
                let e = string_from_range(&v, i + 1, n);
                assert(e@ == v@.skip(i + 1));
                Some(e)
            } else {
                None
            }
        },
        None => None,
    }
}

/// The stem of file name `name`.
pub fn file_stem_of(name: &str) -> (r: String)
    ensures
        r@ == file_stem(name@),
{
    let v = chars_of(name);
    match find_last_dot(&v) {
        Some(i) => {
            if i > 0 && !str_eq(name, "..") {
                string_from_range(&v, 0, i)
            } else {
                name.to_owned()
            }
        },
        None => name.to_owned(),
    }
}


/// The rank of a character: in path order (`sep_first`) the separator `/` comes
/// before every other character; otherwise, and for all other characters, the
/// rank follows the code point.
pub open spec fn char_rank(c: char, sep_first: bool) -> int {
    if sep_first && c == '/' {
        0
    } else {
        (c as u32) as int + 1
    }
}

/// Whether `a` comes before `b`: character by character by rank, a sequence
/// before any longer one it is a prefix of.
pub open spec fn seq_lt(a: Seq<char>, b: Seq<char>, sep_first: bool) -> bool
    decreases a.len(),
{
    if b.len() == 0 {
        false
    } else if a.len() == 0 {
        true
    } else if char_rank(a[0], sep_first) != char_rank(b[0], sep_first) {
        char_rank(a[0], sep_first) < char_rank(b[0], sep_first)
    } else {
        seq_lt(a.drop_first(), b.drop_first(), sep_first)
    }
}

/// Whether path `a` comes before path `b`: component by component, a path before
/// any longer path it is a prefix of. For paths without empty components this is
/// the order of `Path`'s `Ord`.
pub open spec fn path_lt(a: Seq<char>, b: Seq<char>) -> bool {
    seq_lt(a, b, true)
}

/// Whether string `a` comes before string `b` in the order of `String`'s `Ord`
/// (code point by code point).
pub open spec fn str_lt(a: Seq<char>, b: Seq<char>) -> bool {
    seq_lt(a, b, false)
}

/// Each element of `s` is no greater than the ones after it.
pub open spec fn sorted_by(s: Seq<Seq<char>>, sep_first: bool) -> bool {
    forall|i: int, j: int| 0 <= i < j < s.len() ==> !seq_lt(#[trigger] s[j], #[trigger] s[i], sep_first)
}

/// Each path of `s` is no greater than the ones after it.
pub open spec fn path_sorted(s: Seq<Seq<char>>) -> bool {
    forall|i: int, j: int| 0 <= i < j < s.len() ==> !path_lt(#[trigger] s[j], #[trigger] s[i])
}

proof fn lemma_rank_injective(a: char, b: char, sep_first: bool)
    requires
        char_rank(a, sep_first) == char_rank(b, sep_first),
    ensures
        a == b,
{
    if sep_first && a == '/' {
        assert((b as u32) as int >= 0);
    }
}

/// The order is transitive.
pub proof fn lemma_seq_lt_transitive(a: Seq<char>, b: Seq<char>, c: Seq<char>, sep_first: bool)
    requires
        seq_lt(a, b, sep_first),
        seq_lt(b, c, sep_first),
    ensures
        seq_lt(a, c, sep_first),
    decreases a.len(),
{
    if a.len() > 0 && char_rank(a[0], sep_first) == char_rank(b[0], sep_first) && char_rank(b[0], sep_first) == char_rank(c[0], sep_first) {
        lemma_seq_lt_transitive(a.drop_first(), b.drop_first(), c.drop_first(), sep_first);
    }
}

/// The order is asymmetric.
pub proof fn lemma_seq_lt_asymmetric(a: Seq<char>, b: Seq<char>, sep_first: bool)
    ensures
        !(seq_lt(a, b, sep_first) && seq_lt(b, a, sep_first)),
    decreases a.len(),
{
    if a.len() > 0 && b.len() > 0 && char_rank(a[0], sep_first) == char_rank(b[0], sep_first) {
        lemma_seq_lt_asymmetric(a.drop_first(), b.drop_first(), sep_first);
    }
}

/// The order is total: of two different sequences one comes first.
pub proof fn lemma_seq_lt_total(a: Seq<char>, b: Seq<char>, sep_first: bool)
    requires
        a != b,
    ensures
        seq_lt(a, b, sep_first) || seq_lt(b, a, sep_first),
    decreases a.len(),
{
    if a.len() > 0 && b.len() > 0 {
        if char_rank(a[0], sep_first) == char_rank(b[0], sep_first) {
            lemma_rank_injective(a[0], b[0], sep_first);
            if a.drop_first() == b.drop_first() {
                assert(a =~= seq![a[0]] + a.drop_first());
                assert(b =~= seq![b[0]] + b.drop_first());
            }
            lemma_seq_lt_total(a.drop_first(), b.drop_first(), sep_first);
        }
    } else if a.len() == 0 && b.len() == 0 {
        assert(a =~= b);
    }
}

/// Whether `a` comes before `b`.
pub fn seq_less(a: &Vec<char>, b: &Vec<char>, sep_first: bool) -> (r: bool)
    ensures
        r == seq_lt(a@, b@, sep_first),
{
    let mut i: usize = 0;
    assert(a@.skip(0) == a@ && b@.skip(0) == b@);
    while i < a.len() && i < b.len() && a[i] == b[i]
        invariant
            i <= a@.len(),
            i <= b@.len(),
            seq_lt(a@, b@, sep_first) == seq_lt(a@.skip(i as int), b@.skip(i as int), sep_first),
        decreases a.len() - i,
    {
        proof {
            let x = a@.skip(i as int);
            let y = b@.skip(i as int);
            assert(x.drop_first() == a@.skip(i + 1));
            assert(y.drop_first() == b@.skip(i + 1));
        }
        i += 1;
    }
    let ghost x = a@.skip(i as int);
    let ghost y = b@.skip(i as int);
    if i == b.len() {
        false
    } else if i == a.len() {
        true
    } else {
        let ca = a[i];
        let cb = b[i];
        let ra: u64 = if sep_first && ca == '/' { 0 } else { ca as u32 as u64 + 1 };
        let rb: u64 = if sep_first && cb == '/' { 0 } else { cb as u32 as u64 + 1 };
        proof {
            assert(x[0] == ca && y[0] == cb);
            assert(ra == char_rank(ca, sep_first));
            assert(rb == char_rank(cb, sep_first));
            if char_rank(ca, sep_first) == char_rank(cb, sep_first) {
                lemma_rank_injective(ca, cb, sep_first);
            }
        }
        ra < rb
    }
}

proof fn lemma_views_insert(v: Seq<String>, p: int, x: String)
    requires
        0 <= p <= v.len(),
    ensures
        views(v.insert(p, x)) == views(v).insert(p, x@),
{
    assert(views(v.insert(p, x)) =~= views(v).insert(p, x@));
}

/// `v` sorted, in path order when `sep_first` holds, in string order otherwise.
pub fn sort_strings(v: Vec<String>, sep_first: bool) -> (r: Vec<String>)
    ensures
        views(r@).to_multiset() == views(v@).to_multiset(),
        sorted_by(views(r@), sep_first),
{
    broadcast use vstd::seq_lib::group_to_multiset_ensures;

    let mut keys: Vec<Vec<char>> = Vec::new();
    let mut out: Vec<String> = Vec::new();
    let mut i: usize = 0;
    while i < v.len()
        invariant
            i <= v@.len(),
            keys@.len() == out@.len(),
            forall|k: int| 0 <= k < keys@.len() ==> #[trigger] keys@[k]@ == out@[k]@,
            views(out@).to_multiset() == views(v@).take(i as int).to_multiset(),
            sorted_by(views(out@), sep_first),
        decreases v.len() - i,
    {
        let x = v[i].clone();
        let kx = chars_of(x.as_str());
        let mut p: usize = 0;
        while p < out.len() && !seq_less(&kx, &keys[p], sep_first)
            invariant
                p <= out@.len() == keys@.len(),
                forall|k: int| 0 <= k < keys@.len() ==> #[trigger] keys@[k]@ == out@[k]@,
                forall|k: int| 0 <= k < p ==> !seq_lt(kx@, #[trigger] views(out@)[k], sep_first),
            decreases out.len() - p,
        {
            assert(views(out@)[p as int] == out@[p as int]@);
            p += 1;
        }
        let ghost old_out = views(out@);
        let ghost old_keys = keys@;
        let ghost old_strings = out@;
        proof {
            assert forall|a: int, b: int|
                0 <= a < b < old_out.len() + 1 implies !seq_lt(
                #[trigger] old_out.insert(p as int, x@)[b],
                #[trigger] old_out.insert(p as int, x@)[a],
                sep_first,
            ) by {
                let s = old_out.insert(p as int, x@);
                if b < p {
                    assert(s[a] == old_out[a] && s[b] == old_out[b]);
                } else if b == p {
                    assert(s[b] == x@ && s[a] == old_out[a]);
                } else if a == p {
                    assert(s[a] == x@ && s[b] == old_out[b - 1]);
                    assert(seq_lt(x@, old_out[p as int], sep_first)) by {
                        assert(keys@[p as int]@ == out@[p as int]@);
                    }
                    if b - 1 > p {
                        if seq_lt(old_out[b - 1], x@, sep_first) {
                            lemma_seq_lt_transitive(old_out[b - 1], x@, old_out[p as int], sep_first);
                        }
                    } else {
                        lemma_seq_lt_asymmetric(x@, old_out[p as int], sep_first);
                    }
                } else if a < p {
                    assert(s[a] == old_out[a] && s[b] == old_out[b - 1]);
                } else {
                    assert(s[a] == old_out[a - 1] && s[b] == old_out[b - 1]);
                }
            }
            lemma_views_insert(out@, p as int, x);
            assert(v@.take(i + 1) == v@.take(i as int).push(v@[i as int]));
            assert(views(v@).take(i + 1) == views(v@).take(i as int).push(x@));
        }
        keys.insert(p, kx);
        out.insert(p, x);
        proof {
            assert(views(out@) == old_out.insert(p as int, x@));
            vstd::seq_lib::to_multiset_insert(old_out, p as int, x@);
            let t = views(v@).take(i as int);
            vstd::seq_lib::to_multiset_build(t, x@);
            assert(views(v@).take(i + 1) == t.push(x@));
            assert(views(out@).to_multiset() == views(v@).take(i + 1).to_multiset());
            assert forall|k: int| 0 <= k < keys@.len() implies #[trigger] keys@[k]@ == out@[k]@ by {
                if k < p {
                } else if k > p {
                    assert(keys@[k] == old_keys[k - 1]);
                    assert(out@[k] == old_strings[k - 1]);
                }
            }
        }
        i += 1;
    }
    assert(views(v@).take(v@.len() as int) == views(v@));
    out
}

/// The distinct strings of `v`, each once, sorted (in path order when
/// `sep_first` holds, in string order otherwise).
pub fn distinct_sorted(v: &Vec<String>, sep_first: bool) -> (r: Vec<String>)
    ensures
        sorted_by(views(r@), sep_first),
        views(r@).no_duplicates(),
        views(r@).to_set() == views(v@).to_set(),
{
    broadcast use vstd::seq_lib::group_to_multiset_ensures;

    let mut d: Vec<String> = Vec::new();
    let mut i: usize = 0;
    while i < v.len()
        invariant
            i <= v@.len(),
            views(d@).no_duplicates(),
            views(d@).to_set() == views(v@).take(i as int).to_set(),
        decreases v.len() - i,
    {
        let x = v[i].as_str();
        let ghost prev = views(v@).take(i as int);
        assert(views(v@).take(i + 1) == prev.push(x@));
        proof {
            prev.lemma_push_to_set_commute(x@);
        }
        if !crate::text::contains_str(&d, x) {
            let ghost before = views(d@);
            d.push(x.to_owned());
            proof {
                assert(views(d@) =~= before.push(x@));
                before.lemma_push_to_set_commute(x@);
                assert forall|a: int, b: int| 0 <= a < b < views(d@).len() implies views(d@)[a] != views(d@)[b] by {
                    if b == before.len() {
                        assert(before.contains(before[a]));
                    }
                }
            }
        } else {
            proof {
                assert(views(d@).to_set() =~= views(v@).take(i + 1).to_set());
            }
        }
        i += 1;
    }
    assert(views(v@).take(v@.len() as int) == views(v@));
    let ghost before = views(d@);
    let r = sort_strings(d, sep_first);
    proof {
        let s = views(r@);
        before.lemma_multiset_has_no_duplicates();
        assert forall|x: Seq<char>| s.to_multiset().contains(x) implies s.to_multiset().count(x) == 1 by {
            assert(before.to_multiset().contains(x));
        }
        s.lemma_multiset_has_no_duplicates_conv();
        assert(s.to_set() =~= before.to_set()) by {
            assert forall|x: Seq<char>| s.to_set().contains(x) <==> before.to_set().contains(x) by {
                assert(s.contains(x) <==> s.to_multiset().count(x) > 0);
                assert(before.contains(x) <==> before.to_multiset().count(x) > 0);
            }
        }
    }
    r
}

/// `v` in path order.
pub fn sort_paths(v: Vec<String>) -> (r: Vec<String>)
    ensures
        views(r@).to_multiset() == views(v@).to_multiset(),
        path_sorted(views(r@)),
{
    sort_strings(v, true)
}

} // verus!
