//! Grouping items by a text key, groups in the order their keys first appear.

use vstd::prelude::*;
use crate::text::{str_eq, views};

verus! {

/// The distinct keys of `ks`, each at its first appearance.
pub open spec fn distinct_keys(ks: Seq<Seq<char>>) -> Seq<Seq<char>>
    decreases ks.len(),
{
    if ks.len() == 0 {
        Seq::empty()
    } else {
        let d = distinct_keys(ks.drop_last());
        if d.contains(ks.last()) {
            d
        } else {
            d.push(ks.last())
        }
    }
}

/// The positions in `ks` that hold `key`, ascending.
pub open spec fn positions_of(ks: Seq<Seq<char>>, key: Seq<char>) -> Seq<int>
    decreases ks.len(),
{
    if ks.len() == 0 {
        Seq::empty()
    } else if ks.last() == key {
        positions_of(ks.drop_last(), key).push(ks.len() - 1)
    } else {
        positions_of(ks.drop_last(), key)
    }
}

/// The positions as integers.
pub open spec fn as_ints(v: Seq<usize>) -> Seq<int> {
    v.map_values(|x: usize| x as int)
}

/// Groups the positions of `keys` by key: the distinct keys in order of first
/// appearance, and for each the positions that hold it.
pub fn group_by_key(keys: &Vec<String>) -> (r: (Vec<String>, Vec<Vec<usize>>))
    ensures
        views(r.0@) == distinct_keys(views(keys@)),
        r.1@.len() == r.0@.len(),
        forall|g: int| 0 <= g < r.0@.len() ==> as_ints(#[trigger] r.1@[g]@) == positions_of(views(keys@), r.0@[g]@),
{
    let ghost ks = views(keys@);
    let mut names: Vec<String> = Vec::new();
    let mut groups: Vec<Vec<usize>> = Vec::new();
    let mut n: usize = 0;
    while n < keys.len()
        invariant
            n <= keys@.len(),
            ks == views(keys@),
            views(names@) == distinct_keys(ks.take(n as int)),
            groups@.len() == names@.len(),
            forall|g: int| 0 <= g < names@.len() ==> as_ints(#[trigger] groups@[g]@) == positions_of(ks.take(n as int), names@[g]@),
        decreases keys.len() - n,
    {
        let ghost prev = ks.take(n as int);
        let ghost next = ks.take(n + 1);
        assert(next.drop_last() == prev);
        assert(next.last() == keys@[n as int]@);
        let k = keys[n].as_str();
        let mut g: usize = 0;
        while g < names.len() && !str_eq(names[g].as_str(), k)
            invariant
                g <= names@.len(),
                forall|j: int| 0 <= j < g ==> #[trigger] names@[j]@ != k@,
            decreases names.len() - g,
        {
            g += 1;
        }
        let ghost old_names = names@;
        let ghost old_groups = groups@;
        if g < names.len() {
            assert(views(names@)[g as int] == k@);
            assert(distinct_keys(prev).contains(k@));
            let mut grp = groups.remove(g);
            let ghost old_grp = grp@;
            grp.push(n);
            groups.insert(g, grp);
            proof {
                assert(as_ints(grp@) =~= as_ints(old_grp).push(n as int));
                assert forall|j: int| 0 <= j < names@.len() implies as_ints(#[trigger] groups@[j]@) == positions_of(next, names@[j]@) by {
                    if j == g {
                        assert(groups@[j] == grp);
                    } else {
                        assert(groups@[j] == old_groups[j]);
                        assert(names@[j]@ != k@) by {
                            if names@[j]@ == k@ {
                                assert(views(names@)[j] == views(names@)[g as int]);
                                lemma_distinct_keys_unique(prev, j, g as int);
                            }
                        }
                    }
                }
            }
        } else {
            assert(!distinct_keys(prev).contains(k@)) by {
                if distinct_keys(prev).contains(k@) {
                    let j = choose|j: int| 0 <= j < distinct_keys(prev).len() && distinct_keys(prev)[j] == k@;
                    assert(views(names@)[j] == names@[j]@);
                }
            }
            proof { lemma_positions_absent(prev, k@); }
            names.push(k.to_owned());
            let mut grp: Vec<usize> = Vec::new();
            grp.push(n);
            groups.push(grp);
            proof {
                assert(views(names@) =~= views(old_names).push(k@));
                assert forall|j: int| 0 <= j < names@.len() implies as_ints(#[trigger] groups@[j]@) == positions_of(next, names@[j]@) by {
                    if j == old_names.len() {
                        assert(as_ints(groups@[j]@) =~= seq![n as int]);
                        assert(positions_of(next, k@) =~= Seq::<int>::empty().push(n as int));
                    } else {
                        assert(groups@[j] == old_groups[j]);
                        assert(names@[j] == old_names[j]);
                        assert(old_names[j]@ != k@) by {
                            assert(views(old_names)[j] == old_names[j]@);
                        }
                    }
                }
            }
        }
        n += 1;
    }
    assert(ks.take(keys@.len() as int) == ks);
    (names, groups)
}

/// The keys `distinct_keys` gives are distinct.
pub proof fn lemma_distinct_keys_unique(ks: Seq<Seq<char>>, i: int, j: int)
    requires
        0 <= i < distinct_keys(ks).len(),
        0 <= j < distinct_keys(ks).len(),
        distinct_keys(ks)[i] == distinct_keys(ks)[j],
    ensures
        i == j,
    decreases ks.len(),
{
    if ks.len() > 0 {
        let d = distinct_keys(ks.drop_last());
        if d.contains(ks.last()) {
            lemma_distinct_keys_unique(ks.drop_last(), i, j);
        } else {
            if i < d.len() && j < d.len() {
                lemma_distinct_keys_unique(ks.drop_last(), i, j);
            } else if i < d.len() {
                assert(d[i] == ks.last());
            } else if j < d.len() {
                assert(d[j] == ks.last());
            }
        }
    }
}

/// A key that no entry holds has no positions.
pub proof fn lemma_positions_absent(ks: Seq<Seq<char>>, key: Seq<char>)
    requires
        !distinct_keys(ks).contains(key),
    ensures
        positions_of(ks, key) == Seq::<int>::empty(),
    decreases ks.len(),
{
    if ks.len() > 0 {
        let d = distinct_keys(ks.drop_last());
        if !d.contains(ks.last()) {
            assert(distinct_keys(ks)[d.len() as int] == ks.last());
        }
        assert(!d.contains(key)) by {
            if d.contains(key) {
                let j = choose|j: int| 0 <= j < d.len() && d[j] == key;
                assert(distinct_keys(ks)[j] == key);
            }
        }
        lemma_positions_absent(ks.drop_last(), key);
    }
}

/// The positions of `key` are exactly the entries that hold it.
pub proof fn lemma_positions_exact(ks: Seq<Seq<char>>, key: Seq<char>)
    ensures
        forall|m: int| 0 <= m < positions_of(ks, key).len() ==> {
            &&& 0 <= #[trigger] positions_of(ks, key)[m] < ks.len()
            &&& ks[positions_of(ks, key)[m]] == key
        },
        forall|i: int| 0 <= i < ks.len() && #[trigger] ks[i] == key ==> positions_of(ks, key).contains(i),
    decreases ks.len(),
{
    if ks.len() > 0 {
        let q = ks.drop_last();
        lemma_positions_exact(q, key);
        let p = positions_of(q, key);
        assert forall|m: int| 0 <= m < positions_of(ks, key).len() implies {
            &&& 0 <= #[trigger] positions_of(ks, key)[m] < ks.len()
            &&& ks[positions_of(ks, key)[m]] == key
        } by {
            if m < p.len() {
                assert(positions_of(ks, key)[m] == p[m]);
                assert(ks[p[m]] == q[p[m]]);
            }
        }
        assert forall|i: int| 0 <= i < ks.len() && #[trigger] ks[i] == key implies positions_of(ks, key).contains(i) by {
            if i < q.len() {
                assert(q[i] == ks[i]);
                let m = choose|m: int| 0 <= m < p.len() && p[m] == i;
                assert(positions_of(ks, key)[m] == i);
            } else {
                assert(positions_of(ks, key)[p.len() as int] == i);
            }
        }
    }
}

} // verus!
