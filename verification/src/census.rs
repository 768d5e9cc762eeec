//! Counting how often each text occurs in a list, and ordering the counts: the
//! tallies behind tag lists, kind and month distributions and popular words.

use vstd::prelude::*;
use crate::text::{strs, str_eq, text_less, equal_to};

verus! {

/// How many times `k` occurs in `s`.
pub open spec fn occurrences(s: Seq<Seq<char>>, k: Seq<char>) -> nat {
    s.filter(equal_to(k)).len()
}

/// The plain value of a list of counted texts.
pub open spec fn tally_view(r: Seq<(String, usize)>) -> Seq<(Seq<char>, usize)> {
    r.map_values(|p: (String, usize)| (p.0@, p.1))
}

/// `r` counts `s`: each text of `s` once, with the number of times it occurs.
pub open spec fn is_census(s: Seq<Seq<char>>, r: Seq<(Seq<char>, usize)>) -> bool {
    &&& forall|i: int| 0 <= i < r.len() ==> (#[trigger] r[i]).1 == occurrences(s, r[i].0) && r[i].1 > 0
    &&& forall|k: Seq<char>| s.contains(k) ==> exists|i: int| 0 <= i < r.len() && (#[trigger] r[i]).0 == k
    &&& forall|i: int, j: int| 0 <= i < j < r.len() ==> r[i].0 != r[j].0
}

/// Counts never increase along the list.
pub open spec fn most_first(r: Seq<(Seq<char>, usize)>) -> bool {
    forall|i: int, j: int| 0 <= i < j < r.len() ==> r[i].1 >= r[j].1
}

/// Texts increase along the list.
pub open spec fn texts_ascending(r: Seq<(Seq<char>, usize)>) -> bool {
    forall|i: int, j: int| 0 <= i < j < r.len() ==> text_less(r[i].0, r[j].0)
}

/// A text counted in a census occurs in the counted list.
pub proof fn lemma_census_member(s: Seq<Seq<char>>, r: Seq<(Seq<char>, usize)>, i: int)
    requires
        is_census(s, r),
        0 <= i < r.len(),
    ensures
        s.contains(r[i].0),
{
    let k = r[i].0;
    let f = equal_to(k);
    assert(s.filter(f).len() > 0);
    assert(s.filter(f).contains(s.filter(f)[0]));
    s.lemma_filter_pred(f, 0);
    s.lemma_filter_contains_rev(f, s.filter(f)[0]);
}

/// One more text: its count grows by one, the others stay.
proof fn lemma_occurrences_push(s: Seq<Seq<char>>, x: Seq<char>, k: Seq<char>)
    ensures
        occurrences(s.push(x), k) == occurrences(s, k) + if x == k { 1nat } else { 0nat },
{
    let f = equal_to(k);
    s.lemma_filter_push(x, f);
}

/// Where `k` stands among the first `n` entries, if it does.
fn find_text(r: &Vec<(String, usize)>, k: &str) -> (p: Option<usize>)
    ensures
        match p {
            Some(i) => i < r.len() && r@[i as int].0@ == k@,
            None => forall|i: int| 0 <= i < r.len() ==> r@[i].0@ != k@,
        },
{
    let mut i: usize = 0;
    while i < r.len()
        invariant
            i <= r.len(),
            forall|j: int| 0 <= j < i ==> r@[j].0@ != k@,
        decreases r.len() - i,
    {
        if str_eq(r[i].0.as_str(), k) {
            return Some(i);
        }
        i = i + 1;
    }
    None
}

/// Counts each text of `s`, in the order of first appearance.
pub fn census(s: &[String]) -> (r: Vec<(String, usize)>)
    ensures
        is_census(strs(s@), tally_view(r@)),
{
    let ghost sv = strs(s@);
    let mut r: Vec<(String, usize)> = Vec::new();
    let mut i: usize = 0;
    assert(sv.take(0) =~= Seq::<Seq<char>>::empty());
    while i < s.len()
        invariant
            i <= s.len(),
            sv == strs(s@),
            is_census(sv.take(i as int), tally_view(r@)),
            forall|j: int| 0 <= j < r.len() ==> (#[trigger] r@[j]).1 <= i,
        decreases s.len() - i,
    {
        let k = s[i].as_str();
        let ghost pre = sv.take(i as int);
        let ghost post = sv.take(i + 1);
        assert(post =~= pre.push(k@));
        let ghost old_t = tally_view(r@);
        match find_text(&r, k) {
            Some(p) => {
                let c = r[p].1;
                let name = r[p].0.clone();
                r.set(p, (name, c + 1));
                assert(tally_view(r@) =~= old_t.update(p as int, (k@, (c + 1) as usize)));
                assert forall|a: int, b: int| 0 <= a < b < tally_view(r@).len() implies
                    tally_view(r@)[a].0 != tally_view(r@)[b].0 by {
                    assert(tally_view(r@)[a].0 == old_t[a].0);
                    assert(tally_view(r@)[b].0 == old_t[b].0);
                }
                assert forall|j: int| 0 <= j < tally_view(r@).len() implies
                    (#[trigger] tally_view(r@)[j]).1 == occurrences(post, tally_view(r@)[j].0) && tally_view(r@)[j].1 > 0 by {
                    lemma_occurrences_push(pre, k@, tally_view(r@)[j].0);
                    if j != p {
                        assert(tally_view(r@)[j] == old_t[j]);
                        assert(old_t[j].0 != old_t[p as int].0);
                    }
                }
                assert forall|x: Seq<char>| post.contains(x) implies exists|j: int|
                    0 <= j < tally_view(r@).len() && (#[trigger] tally_view(r@)[j]).0 == x by {
                    if x == k@ {
                        assert(tally_view(r@)[p as int].0 == x);
                    } else {
                        let m = choose|m: int| 0 <= m < post.len() && post[m] == x;
                        assert(pre[m] == x);
                        assert(pre.contains(x));
                        let j = choose|j: int| 0 <= j < old_t.len() && (#[trigger] old_t[j]).0 == x;
                        assert(tally_view(r@)[j].0 == x);
                    }
                }
            },
            None => {
                r.push((k.to_owned(), 1));
                assert(tally_view(r@) =~= old_t.push((k@, 1usize)));
                assert forall|j: int| 0 <= j < tally_view(r@).len() implies
                    (#[trigger] tally_view(r@)[j]).1 == occurrences(post, tally_view(r@)[j].0) && tally_view(r@)[j].1 > 0 by {
                    lemma_occurrences_push(pre, k@, tally_view(r@)[j].0);
                    if j < old_t.len() {
                        assert(tally_view(r@)[j] == old_t[j]);
                    } else {
                        if pre.contains(k@) {
                            let jj = choose|jj: int| 0 <= jj < old_t.len() && (#[trigger] old_t[jj]).0 == k@;
                            assert(r@[jj].0@ == k@);
                        }
                        assert(!pre.contains(k@));
                        let f = equal_to(k@);
                        if pre.filter(f).len() > 0 {
                            pre.lemma_filter_pred(f, 0);
                            assert(pre.filter(f).contains(pre.filter(f)[0]));
                            pre.lemma_filter_contains_rev(f, pre.filter(f)[0]);
                        }
                    }
                }
                assert forall|x: Seq<char>| post.contains(x) implies exists|j: int|
                    0 <= j < tally_view(r@).len() && (#[trigger] tally_view(r@)[j]).0 == x by {
                    if x == k@ {
                        assert(tally_view(r@)[old_t.len() as int].0 == x);
                    } else {
                        let m = choose|m: int| 0 <= m < post.len() && post[m] == x;
                        assert(pre[m] == x);
                        assert(pre.contains(x));
                        let j = choose|j: int| 0 <= j < old_t.len() && (#[trigger] old_t[j]).0 == x;
                        assert(tally_view(r@)[j].0 == x);
                    }
                }
                assert forall|a: int, b: int| 0 <= a < b < tally_view(r@).len() implies
                    tally_view(r@)[a].0 != tally_view(r@)[b].0 by {
                    if b == old_t.len() {
                        assert(tally_view(r@)[a] == old_t[a]);
                        assert(r@[a].0@ != k@);
                    } else {
                        assert(tally_view(r@)[a] == old_t[a] && tally_view(r@)[b] == old_t[b]);
                    }
                }
            },
        }
        i = i + 1;
    }
    assert(sv.take(s.len() as int) =~= sv);
    r
}

/// `v` holds exactly the entries of `r` whose index is below `i`... as a set of entries.
pub open spec fn holds_entry(v: Seq<(Seq<char>, usize)>, x: (Seq<char>, usize)) -> bool {
    exists|a: int| 0 <= a < v.len() && v[a] == x
}

/// The census property survives a reordering that keeps the entries.
pub proof fn lemma_census_reordered(s: Seq<Seq<char>>, r: Seq<(Seq<char>, usize)>, v: Seq<(Seq<char>, usize)>)
    requires
        is_census(s, r),
        forall|x: (Seq<char>, usize)| #[trigger] holds_entry(v, x) <==> holds_entry(r, x),
        forall|a: int, b: int| 0 <= a < b < v.len() ==> v[a].0 != v[b].0,
    ensures
        is_census(s, v),
{
    assert forall|i: int| 0 <= i < v.len() implies (#[trigger] v[i]).1 == occurrences(s, v[i].0) && v[i].1 > 0 by {
        assert(holds_entry(v, v[i]));
        let a = choose|a: int| 0 <= a < r.len() && r[a] == v[i];
    }
    assert forall|k: Seq<char>| s.contains(k) implies exists|i: int| 0 <= i < v.len() && (#[trigger] v[i]).0 == k by {
        let a = choose|a: int| 0 <= a < r.len() && (#[trigger] r[a]).0 == k;
        assert(holds_entry(r, r[a]));
        assert(holds_entry(v, r[a]));
        let b = choose|b: int| 0 <= b < v.len() && v[b] == r[a];
    }
}

/// Inserts `(name, c)` after every entry whose count is at least `c`; where it went.
fn insert_by_count(v: &mut Vec<(String, usize)>, name: String, c: usize) -> (p: usize)
    requires
        most_first(tally_view(old(v)@)),
    ensures
        p <= old(v)@.len(),
        tally_view(final(v)@) == tally_view(old(v)@).insert(p as int, (name@, c)),
        most_first(tally_view(final(v)@)),
{
    let ghost o = tally_view(v@);
    let ghost nm = name@;
    let mut p: usize = 0;
    while p < v.len() && v[p].1 >= c
        invariant
            p <= v.len(),
            v@ == old(v)@,
            o == tally_view(v@),
            forall|a: int| 0 <= a < p ==> o[a].1 >= c,
        decreases v.len() - p,
    {
        p = p + 1;
    }
    assert forall|a: int| p <= a < o.len() implies o[a].1 < c by {
        if p < o.len() {
            assert(o[p as int].1 < c);
            if a > p {
                assert(o[p as int].1 >= o[a].1);
            }
        }
    }
    v.insert(p, (name, c));
    let ghost n = tally_view(v@);
    assert(n =~= o.insert(p as int, (nm, c)));
    assert forall|a: int, b: int| 0 <= a < b < n.len() implies n[a].1 >= n[b].1 by {
        if b < p {
            assert(n[a] == o[a] && n[b] == o[b]);
        } else if b == p {
            assert(n[a] == o[a]);
        } else if a < p {
            assert(n[a] == o[a] && n[b] == o[b - 1]);
        } else if a == p {
            assert(n[b] == o[b - 1]);
        } else {
            assert(n[a] == o[a - 1] && n[b] == o[b - 1]);
        }
    }
    p
}

/// The entries reordered with the largest counts first (equal counts keep their order).
pub fn sort_by_count(r: &Vec<(String, usize)>) -> (v: Vec<(String, usize)>)
    requires
        forall|a: int, b: int| 0 <= a < b < r.len() ==> r@[a].0@ != r@[b].0@,
    ensures
        most_first(tally_view(v@)),
        forall|x: (Seq<char>, usize)| #[trigger] holds_entry(tally_view(v@), x) <==> holds_entry(tally_view(r@), x),
        forall|a: int, b: int| 0 <= a < b < v.len() ==> tally_view(v@)[a].0 != tally_view(v@)[b].0,
{
    let ghost rv = tally_view(r@);
    let mut v: Vec<(String, usize)> = Vec::new();
    let mut i: usize = 0;
    assert(tally_view(v@) =~= Seq::<(Seq<char>, usize)>::empty());
    while i < r.len()
        invariant
            i <= r.len(),
            rv == tally_view(r@),
            forall|a: int, b: int| 0 <= a < b < r.len() ==> r@[a].0@ != r@[b].0@,
            most_first(tally_view(v@)),
            forall|x: (Seq<char>, usize)| #[trigger] holds_entry(tally_view(v@), x) <==> holds_entry(rv.take(i as int), x),
            forall|a: int, b: int| 0 <= a < b < v.len() ==> tally_view(v@)[a].0 != tally_view(v@)[b].0,
        decreases r.len() - i,
    {
        let ghost o = tally_view(v@);
        let ghost t0 = rv.take(i as int);
        let ghost t1 = rv.take(i + 1);
        let name = r[i].0.clone();
        let c = r[i].1;
        assert(t1 =~= t0.push(rv[i as int]));
        assert(rv[i as int] == (name@, c));
        assert forall|a: int| 0 <= a < o.len() implies o[a].0 != name@ by {
            assert(holds_entry(o, o[a]));
            let b = choose|b: int| 0 <= b < t0.len() && t0[b] == o[a];
            assert(rv[b] == o[a]);
            assert(r@[b].0@ != r@[i as int].0@);
        }
        let p = insert_by_count(&mut v, name, c);
        let ghost n = tally_view(v@);
        assert forall|x: (Seq<char>, usize)| #[trigger] holds_entry(n, x) <==> holds_entry(t1, x) by {
            if holds_entry(n, x) {
                let a = choose|a: int| 0 <= a < n.len() && n[a] == x;
                if a < p {
                    assert(o[a] == x);
                    assert(holds_entry(o, x));
                    let b = choose|b: int| 0 <= b < t0.len() && t0[b] == x;
                    assert(t1[b] == x);
                } else if a > p {
                    assert(o[a - 1] == x);
                    assert(holds_entry(o, x));
                    let b = choose|b: int| 0 <= b < t0.len() && t0[b] == x;
                    assert(t1[b] == x);
                } else {
                    assert(t1[i as int] == x);
                }
            }
            if holds_entry(t1, x) {
                let b = choose|b: int| 0 <= b < t1.len() && t1[b] == x;
                if b < i {
                    assert(t0[b] == x);
                    assert(holds_entry(t0, x));
                    assert(holds_entry(o, x));
                    let a = choose|a: int| 0 <= a < o.len() && o[a] == x;
                    if a < p {
                        assert(n[a] == x);
                    } else {
                        assert(n[a + 1] == x);
                    }
                } else {
                    assert(n[p as int] == x);
                }
            }
        }
        assert forall|a: int, b: int| 0 <= a < b < n.len() implies n[a].0 != n[b].0 by {
            if b < p {
                assert(n[a] == o[a] && n[b] == o[b]);
            } else if b == p {
                assert(n[a] == o[a]);
            } else if a < p {
                assert(n[a] == o[a] && n[b] == o[b - 1]);
            } else if a == p {
                assert(n[b] == o[b - 1]);
            } else {
                assert(n[a] == o[a - 1] && n[b] == o[b - 1]);
            }
        }
        i = i + 1;
    }
    assert(rv.take(r.len() as int) =~= rv);
    v
}

/// Counts each text of `s`, the most frequent first (equal counts in the order of first
/// appearance).
pub fn census_by_count(s: &[String]) -> (r: Vec<(String, usize)>)
    ensures
        is_census(strs(s@), tally_view(r@)),
        most_first(tally_view(r@)),
{
    let c = census(s);
    assert forall|a: int, b: int| 0 <= a < b < c.len() implies c@[a].0@ != c@[b].0@ by {
        assert(tally_view(c@)[a].0 != tally_view(c@)[b].0);
    }
    let v = sort_by_count(&c);
    proof {
        lemma_census_reordered(strs(s@), tally_view(c@), tally_view(v@));
    }
    v
}

/// The entries reordered by text, ascending.
pub fn sort_by_text(r: &Vec<(String, usize)>) -> (v: Vec<(String, usize)>)
    requires
        forall|a: int, b: int| 0 <= a < b < r.len() ==> r@[a].0@ != r@[b].0@,
    ensures
        texts_ascending(tally_view(v@)),
        forall|x: (Seq<char>, usize)| #[trigger] holds_entry(tally_view(v@), x) <==> holds_entry(tally_view(r@), x),
        forall|a: int, b: int| 0 <= a < b < v.len() ==> tally_view(v@)[a].0 != tally_view(v@)[b].0,
{
    let ghost rv = tally_view(r@);
    let mut v: Vec<(String, usize)> = Vec::new();
    let mut i: usize = 0;
    assert(tally_view(v@) =~= Seq::<(Seq<char>, usize)>::empty());
    while i < r.len()
        invariant
            i <= r.len(),
            rv == tally_view(r@),
            forall|a: int, b: int| 0 <= a < b < r.len() ==> r@[a].0@ != r@[b].0@,
            texts_ascending(tally_view(v@)),
            forall|x: (Seq<char>, usize)| #[trigger] holds_entry(tally_view(v@), x) <==> holds_entry(rv.take(i as int), x),
            forall|a: int, b: int| 0 <= a < b < v.len() ==> tally_view(v@)[a].0 != tally_view(v@)[b].0,
        decreases r.len() - i,
    {
        let ghost o = tally_view(v@);
        let ghost t0 = rv.take(i as int);
        let ghost t1 = rv.take(i + 1);
        let name = r[i].0.clone();
        let c = r[i].1;
        assert(t1 =~= t0.push(rv[i as int]));
        assert(rv[i as int] == (name@, c));
        assert forall|a: int| 0 <= a < o.len() implies o[a].0 != name@ by {
            assert(holds_entry(o, o[a]));
            let b = choose|b: int| 0 <= b < t0.len() && t0[b] == o[a];
            assert(rv[b] == o[a]);
            assert(r@[b].0@ != r@[i as int].0@);
        }
        let mut p: usize = 0;
        while p < v.len() && crate::text::str_less(v[p].0.as_str(), name.as_str())
            invariant
                p <= v.len(),
                o == tally_view(v@),
                forall|a: int| 0 <= a < p ==> text_less(o[a].0, name@),
            decreases v.len() - p,
        {
            p = p + 1;
        }
        assert forall|a: int| p <= a < o.len() implies text_less(name@, o[a].0) by {
            assert(!text_less(o[p as int].0, name@));
            assert(o[p as int].0 != name@);
            crate::text::lemma_text_less_total(o[p as int].0, name@);
            if a > p {
                crate::text::lemma_text_less_transitive(name@, o[p as int].0, o[a].0);
            }
        }
        v.insert(p, (name, c));
        let ghost n = tally_view(v@);
        assert(n =~= o.insert(p as int, rv[i as int]));
        assert forall|a: int, b: int| 0 <= a < b < n.len() implies text_less(n[a].0, n[b].0) by {
            if b < p {
                assert(n[a] == o[a] && n[b] == o[b]);
            } else if b == p {
                assert(n[a] == o[a]);
            } else if a < p {
                assert(n[a] == o[a] && n[b] == o[b - 1]);
                crate::text::lemma_text_less_transitive(o[a].0, rv[i as int].0, o[b - 1].0);
            } else if a == p {
                assert(n[b] == o[b - 1]);
            } else {
                assert(n[a] == o[a - 1] && n[b] == o[b - 1]);
            }
        }
        assert forall|a: int, b: int| 0 <= a < b < n.len() implies n[a].0 != n[b].0 by {
            crate::text::lemma_text_less_irreflexive(n[a].0);
        }
        assert forall|x: (Seq<char>, usize)| #[trigger] holds_entry(n, x) <==> holds_entry(t1, x) by {
            if holds_entry(n, x) {
                let a = choose|a: int| 0 <= a < n.len() && n[a] == x;
                if a != p {
                    let oa = if a < p { a } else { a - 1 };
                    assert(o[oa] == x);
                    assert(holds_entry(o, x));
                    let b = choose|b: int| 0 <= b < t0.len() && t0[b] == x;
                    assert(t1[b] == x);
                } else {
                    assert(t1[i as int] == x);
                }
            }
            if holds_entry(t1, x) {
                let b = choose|b: int| 0 <= b < t1.len() && t1[b] == x;
                if b < i {
                    assert(t0[b] == x);
                    assert(holds_entry(t0, x));
                    assert(holds_entry(o, x));
                    let a = choose|a: int| 0 <= a < o.len() && o[a] == x;
                    if a < p {
                        assert(n[a] == x);
                    } else {
                        assert(n[a + 1] == x);
                    }
                } else {
                    assert(n[p as int] == x);
                }
            }
        }
        i = i + 1;
    }
    assert(rv.take(r.len() as int) =~= rv);
    v
}

/// Counts each text of `s`, in increasing order of the texts.
pub fn census_by_text(s: &[String]) -> (r: Vec<(String, usize)>)
    ensures
        is_census(strs(s@), tally_view(r@)),
        texts_ascending(tally_view(r@)),
{
    let c = census(s);
    assert forall|a: int, b: int| 0 <= a < b < c.len() implies c@[a].0@ != c@[b].0@ by {
        assert(tally_view(c@)[a].0 != tally_view(c@)[b].0);
    }
    let v = sort_by_text(&c);
    proof {
        lemma_census_reordered(strs(s@), tally_view(c@), tally_view(v@));
    }
    v
}

} // verus!
