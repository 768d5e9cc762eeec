//! The link graph of memories: each memory is a node, and each related id
//! joins two nodes in both directions.

use vstd::prelude::*;
use crate::text::{strs, str_eq, decimal, byte_cut, fits_at, push_decimal, append_str, byte_prefix};
use crate::types::{Memory, MemoryView, memory_views, copy_strings};

verus! {

/// One node with its neighbour list, in insertion order.
pub type Entry = (Seq<char>, Seq<Seq<char>>);

/// `i` is the first index of node `k` in `e`.
pub open spec fn is_key_at(e: Seq<Entry>, k: Seq<char>, i: int) -> bool {
    0 <= i < e.len() && e[i].0 == k && forall|j: int| 0 <= j < i ==> e[j].0 != k
}

/// The index of node `k` in `e`, or -1.
pub open spec fn key_index(e: Seq<Entry>, k: Seq<char>) -> int {
    if exists|i: int| is_key_at(e, k, i) {
        choose|i: int| is_key_at(e, k, i)
    } else {
        -1
    }
}

/// Whether `k` is a node of `e`.
pub open spec fn has_node(e: Seq<Entry>, k: Seq<char>) -> bool {
    exists|i: int| 0 <= i < e.len() && e[i].0 == k
}

/// The neighbours of `k` (none when `k` is no node).
pub open spec fn nbrs(e: Seq<Entry>, k: Seq<char>) -> Seq<Seq<char>> {
    let i = key_index(e, k);
    if i < 0 {
        seq![]
    } else {
        e[i].1
    }
}

/// Appends `b` to the neighbours of `a`, adding `a` as a node when it is new.
pub open spec fn push_nb(e: Seq<Entry>, a: Seq<char>, b: Seq<char>) -> Seq<Entry> {
    let i = key_index(e, a);
    if i < 0 {
        e.push((a, seq![b]))
    } else {
        e.update(i, (a, e[i].1.push(b)))
    }
}

/// Adds `a` as a node without neighbours when it is new.
pub open spec fn ensure_node(e: Seq<Entry>, a: Seq<char>) -> Seq<Entry> {
    if key_index(e, a) < 0 {
        e.push((a, seq![]))
    } else {
        e
    }
}

/// Links `id` with each of `rids` in both directions, in order.
pub open spec fn add_links(e: Seq<Entry>, id: Seq<char>, rids: Seq<Seq<char>>) -> Seq<Entry>
    decreases rids.len(),
{
    if rids.len() == 0 {
        e
    } else {
        let e1 = add_links(e, id, rids.drop_last());
        push_nb(push_nb(e1, id, rids.last()), rids.last(), id)
    }
}

/// The graph of a sequence of memories, built in order.
pub open spec fn build(ms: Seq<MemoryView>) -> Seq<Entry>
    decreases ms.len(),
{
    if ms.len() == 0 {
        seq![]
    } else {
        let e = build(ms.drop_last());
        let m = ms.last();
        add_links(ensure_node(e, m.id), m.id, m.related_ids)
    }
}

/// No node occurs twice.
pub open spec fn keys_unique(e: Seq<Entry>) -> bool {
    forall|i: int, j: int| 0 <= i < j < e.len() ==> e[i].0 != e[j].0
}

/// The sum of the neighbour-list lengths.
pub open spec fn total_degree(e: Seq<Entry>) -> nat
    decreases e.len(),
{
    if e.len() == 0 {
        0
    } else {
        total_degree(e.drop_last()) + e.last().1.len()
    }
}

/// The number of related ids over a sequence of memories.
pub open spec fn total_links(ms: Seq<MemoryView>) -> nat
    decreases ms.len(),
{
    if ms.len() == 0 {
        0
    } else {
        total_links(ms.drop_last()) + ms.last().related_ids.len()
    }
}

/// With unique nodes, the index of a node is where it stands.
pub proof fn lemma_key_index(e: Seq<Entry>, k: Seq<char>, i: int)
    requires
        keys_unique(e),
        0 <= i < e.len(),
        e[i].0 == k,
    ensures
        key_index(e, k) == i,
        has_node(e, k),
{
    assert(is_key_at(e, k, i));
    let j = choose|j: int| is_key_at(e, k, j);
    assert(is_key_at(e, k, j));
}

/// A node that is absent has index -1.
pub proof fn lemma_key_absent(e: Seq<Entry>, k: Seq<char>)
    requires
        !has_node(e, k),
    ensures
        key_index(e, k) == -1,
{
}

/// A present node has an index in range.
pub proof fn lemma_key_present(e: Seq<Entry>, k: Seq<char>)
    requires
        keys_unique(e),
        has_node(e, k),
    ensures
        0 <= key_index(e, k) < e.len(),
        e[key_index(e, k)].0 == k,
{
    let i = choose|i: int| 0 <= i < e.len() && e[i].0 == k;
    lemma_key_index(e, k, i);
}

/// The total degree of a sequence with one list changed.
pub proof fn lemma_total_degree_update(e: Seq<Entry>, i: int, x: Entry)
    requires
        0 <= i < e.len(),
    ensures
        total_degree(e.update(i, x)) == total_degree(e) - e[i].1.len() + x.1.len(),
    decreases e.len(),
{
    if i < e.len() - 1 {
        lemma_total_degree_update(e.drop_last(), i, x);
        assert(e.update(i, x).drop_last() =~= e.drop_last().update(i, x));
    } else {
        assert(e.update(i, x).drop_last() =~= e.drop_last());
    }
}

/// Pushing a neighbour keeps nodes unique and adds one to the total degree.
pub proof fn lemma_push_nb(e: Seq<Entry>, a: Seq<char>, b: Seq<char>)
    requires
        keys_unique(e),
    ensures
        keys_unique(push_nb(e, a, b)),
        total_degree(push_nb(e, a, b)) == total_degree(e) + 1,
        forall|k: Seq<char>| has_node(push_nb(e, a, b), k) <==> (has_node(e, k) || k == a),
{
    let i = key_index(e, a);
    if has_node(e, a) {
        lemma_key_present(e, a);
        lemma_total_degree_update(e, i, (a, e[i].1.push(b)));
        let e2 = push_nb(e, a, b);
        assert forall|k: Seq<char>| has_node(e2, k) <==> (has_node(e, k) || k == a) by {
            if has_node(e, k) {
                let j = choose|j: int| 0 <= j < e.len() && e[j].0 == k;
                assert(e2[j].0 == k);
            }
            if has_node(e2, k) {
                let j = choose|j: int| 0 <= j < e2.len() && e2[j].0 == k;
                assert(e[j].0 == k);
            }
        }
    } else {
        lemma_key_absent(e, a);
        let e2 = push_nb(e, a, b);
        assert(e2.drop_last() =~= e);
        assert forall|k: Seq<char>| has_node(e2, k) <==> (has_node(e, k) || k == a) by {
            if has_node(e, k) {
                let j = choose|j: int| 0 <= j < e.len() && e[j].0 == k;
                assert(e2[j].0 == k);
            }
            if k == a {
                assert(e2[e.len() as int].0 == k);
            }
            if has_node(e2, k) {
                let j = choose|j: int| 0 <= j < e2.len() && e2[j].0 == k;
                if j < e.len() {
                    assert(e[j].0 == k);
                }
            }
        }
    }
}

/// Adding a node keeps nodes unique and the total degree.
pub proof fn lemma_ensure_node(e: Seq<Entry>, a: Seq<char>)
    requires
        keys_unique(e),
    ensures
        keys_unique(ensure_node(e, a)),
        total_degree(ensure_node(e, a)) == total_degree(e),
{
    if !has_node(e, a) {
        lemma_key_absent(e, a);
        assert(ensure_node(e, a).drop_last() =~= e);
    } else {
        lemma_key_present(e, a);
    }
}


/// `b` is a neighbour of `a`.
pub open spec fn adjacent(e: Seq<Entry>, a: Seq<char>, b: Seq<char>) -> bool {
    nbrs(e, a).contains(b)
}

/// `p` is a walk from `a` to `b`: consecutive nodes are neighbours.
pub open spec fn is_walk(e: Seq<Entry>, p: Seq<Seq<char>>, a: Seq<char>, b: Seq<char>) -> bool {
    &&& p.len() >= 1
    &&& p[0] == a
    &&& p.last() == b
    &&& forall|i: int| 0 <= i < p.len() - 1 ==> adjacent(e, #[trigger] p[i], p[i + 1])
}

/// Some walk leads from `a` to `b`.
pub open spec fn reachable(e: Seq<Entry>, a: Seq<char>, b: Seq<char>) -> bool {
    exists|p: Seq<Seq<char>>| is_walk(e, p, a, b)
}

/// A walk extended by a neighbour of its end is a walk.
pub proof fn lemma_walk_extend(e: Seq<Entry>, p: Seq<Seq<char>>, a: Seq<char>, b: Seq<char>, c: Seq<char>)
    requires
        is_walk(e, p, a, b),
        adjacent(e, b, c),
    ensures
        is_walk(e, p.push(c), a, c),
{
    let q = p.push(c);
    assert forall|i: int| 0 <= i < q.len() - 1 implies adjacent(e, #[trigger] q[i], q[i + 1]) by {
        if i < p.len() - 1 {
            assert(q[i] == p[i] && q[i + 1] == p[i + 1]);
        }
    }
}

/// A set of nodes that holds `a`, holds every neighbour of its members, and lacks `b`
/// shows that no walk leads from `a` to `b`.
pub proof fn lemma_closed_unreachable(e: Seq<Entry>, s: Seq<Seq<char>>, a: Seq<char>, b: Seq<char>)
    requires
        s.contains(a),
        !s.contains(b),
        forall|x: Seq<char>, y: Seq<char>| s.contains(x) && adjacent(e, x, y) ==> s.contains(y),
    ensures
        !reachable(e, a, b),
{
    if reachable(e, a, b) {
        let p = choose|p: Seq<Seq<char>>| is_walk(e, p, a, b);
        lemma_walk_stays(e, s, p, a, b, p.len() - 1);
    }
}

/// Every node of a walk that starts in a closed set lies in the set.
pub proof fn lemma_walk_stays(e: Seq<Entry>, s: Seq<Seq<char>>, p: Seq<Seq<char>>, a: Seq<char>, b: Seq<char>, i: int)
    requires
        s.contains(a),
        is_walk(e, p, a, b),
        0 <= i < p.len(),
        forall|x: Seq<char>, y: Seq<char>| s.contains(x) && adjacent(e, x, y) ==> s.contains(y),
    ensures
        s.contains(p[i]),
    decreases i,
{
    if i > 0 {
        lemma_walk_stays(e, s, p, a, b, i - 1);
        assert(adjacent(e, p[i - 1], p[i]));
    }
}


/// Every walk from `a` with at most `n` nodes ends at a member of `s`.
pub open spec fn covers(e: Seq<Entry>, s: Seq<Seq<char>>, a: Seq<char>, n: int) -> bool {
    forall|q: Seq<Seq<char>>, y: Seq<char>| #[trigger] is_walk(e, q, a, y) && q.len() <= n ==> s.contains(y)
}

/// A walk without its last node is a walk to the node before it.
pub proof fn lemma_walk_prefix(e: Seq<Entry>, q: Seq<Seq<char>>, a: Seq<char>, y: Seq<char>)
    requires
        is_walk(e, q, a, y),
        q.len() >= 2,
    ensures
        is_walk(e, q.drop_last(), a, q[q.len() - 2]),
        adjacent(e, q[q.len() - 2], y),
{
    let p = q.drop_last();
    assert forall|i: int| 0 <= i < p.len() - 1 implies adjacent(e, #[trigger] p[i], p[i + 1]) by {
        assert(p[i] == q[i] && p[i + 1] == q[i + 1]);
    }
    assert(adjacent(e, q[q.len() - 2], q[q.len() - 1]));
}

/// Linking keeps nodes unique.
proof fn lemma_add_links_unique(e: Seq<Entry>, id: Seq<char>, rids: Seq<Seq<char>>)
    requires
        keys_unique(e),
    ensures
        keys_unique(add_links(e, id, rids)),
    decreases rids.len(),
{
    if rids.len() > 0 {
        lemma_add_links_unique(e, id, rids.drop_last());
        let e1 = add_links(e, id, rids.drop_last());
        lemma_push_nb(e1, id, rids.last());
        lemma_push_nb(push_nb(e1, id, rids.last()), rids.last(), id);
    }
}

/// The graph of any memories has each node once.
proof fn lemma_build_unique(ms: Seq<MemoryView>)
    ensures
        keys_unique(build(ms)),
    decreases ms.len(),
{
    if ms.len() > 0 {
        let p = ms.drop_last();
        lemma_build_unique(p);
        lemma_ensure_node(build(p), ms.last().id);
        lemma_add_links_unique(ensure_node(build(p), ms.last().id), ms.last().id, ms.last().related_ids);
    }
}

/// Pushing a neighbour keeps every link there was.
proof fn lemma_push_keeps(e: Seq<Entry>, a: Seq<char>, b: Seq<char>, x: Seq<char>, y: Seq<char>)
    requires
        keys_unique(e),
        adjacent(e, x, y),
    ensures
        adjacent(push_nb(e, a, b), x, y),
{
    lemma_nbrs_push(e, a, b, x);
    if x == a {
        let i = choose|i: int| 0 <= i < nbrs(e, x).len() && nbrs(e, x)[i] == y;
        assert(nbrs(e, a).push(b)[i] == y);
    }
}

/// Linking keeps every link there was.
proof fn lemma_add_links_keeps(e: Seq<Entry>, id: Seq<char>, rids: Seq<Seq<char>>, x: Seq<char>, y: Seq<char>)
    requires
        keys_unique(e),
        adjacent(e, x, y),
    ensures
        adjacent(add_links(e, id, rids), x, y),
    decreases rids.len(),
{
    if rids.len() > 0 {
        lemma_add_links_keeps(e, id, rids.drop_last(), x, y);
        lemma_add_links_unique(e, id, rids.drop_last());
        let e1 = add_links(e, id, rids.drop_last());
        lemma_push_keeps(e1, id, rids.last(), x, y);
        lemma_push_nb(e1, id, rids.last());
        lemma_push_keeps(push_nb(e1, id, rids.last()), rids.last(), id, x, y);
    }
}

/// Linking `id` with `rids` links it with each of them both ways.
proof fn lemma_add_links_links(e: Seq<Entry>, id: Seq<char>, rids: Seq<Seq<char>>, j: int)
    requires
        keys_unique(e),
        0 <= j < rids.len(),
    ensures
        adjacent(add_links(e, id, rids), id, rids[j]),
        adjacent(add_links(e, id, rids), rids[j], id),
    decreases rids.len(),
{
    let b = rids.last();
    let e1 = add_links(e, id, rids.drop_last());
    lemma_add_links_unique(e, id, rids.drop_last());
    let e2 = push_nb(e1, id, b);
    lemma_push_nb(e1, id, b);
    if j == rids.len() - 1 {
        lemma_nbrs_push(e1, id, b, id);
        assert(nbrs(e2, id)[nbrs(e2, id).len() - 1] == b);
        assert(adjacent(e2, id, b));
        lemma_push_keeps(e2, b, id, id, b);
        lemma_nbrs_push(e2, b, id, b);
        let e3 = push_nb(e2, b, id);
        assert(nbrs(e3, b)[nbrs(e3, b).len() - 1] == id);
    } else {
        lemma_add_links_links(e, id, rids.drop_last(), j);
        assert(rids.drop_last()[j] == rids[j]);
        lemma_push_keeps(e1, id, b, id, rids[j]);
        lemma_push_keeps(e1, id, b, rids[j], id);
        lemma_push_keeps(e2, b, id, id, rids[j]);
        lemma_push_keeps(e2, b, id, rids[j], id);
    }
}

/// Each related id of a memory links the two both ways in the graph of the memories.
pub proof fn law_related_are_linked(ms: Seq<MemoryView>, i: int, j: int)
    requires
        0 <= i < ms.len(),
        0 <= j < ms[i].related_ids.len(),
    ensures
        adjacent(build(ms), ms[i].id, ms[i].related_ids[j]),
        adjacent(build(ms), ms[i].related_ids[j], ms[i].id),
    decreases ms.len(),
{
    let p = ms.drop_last();
    let m = ms.last();
    lemma_build_unique(p);
    let e0 = ensure_node(build(p), m.id);
    lemma_ensure_node(build(p), m.id);
    if i == ms.len() - 1 {
        lemma_add_links_links(e0, m.id, m.related_ids, j);
    } else {
        assert(p[i] == ms[i]);
        law_related_are_linked(p, i, j);
        let a = ms[i].id;
        let b = ms[i].related_ids[j];
        lemma_nbrs_ensure(build(p), m.id, a);
        lemma_nbrs_ensure(build(p), m.id, b);
        lemma_add_links_keeps(e0, m.id, m.related_ids, a, b);
        lemma_add_links_keeps(e0, m.id, m.related_ids, b, a);
    }
}

/// How many times `x` occurs in `s`.
pub open spec fn count_of(s: Seq<Seq<char>>, x: Seq<char>) -> nat
    decreases s.len(),
{
    if s.len() == 0 {
        0
    } else {
        count_of(s.drop_last(), x) + (if s.last() == x { 1nat } else { 0nat })
    }
}

/// The links that end at `n` over a sequence of memories: every related id that a
/// memory with id `n` declares, and every time `n` is itself named as a related id.
pub open spec fn links_at(ms: Seq<MemoryView>, n: Seq<char>) -> nat
    decreases ms.len(),
{
    if ms.len() == 0 {
        0
    } else {
        let m = ms.last();
        links_at(ms.drop_last(), n) + (if m.id == n { m.related_ids.len() } else { 0nat })
            + count_of(m.related_ids, n)
    }
}

/// Linking `id` with `rids` adds one neighbour per related id at `id`, one at each
/// related id, and two to the total degree per related id.
proof fn lemma_add_links_degree(e: Seq<Entry>, id: Seq<char>, rids: Seq<Seq<char>>, n: Seq<char>)
    requires
        keys_unique(e),
    ensures
        nbrs(add_links(e, id, rids), n).len() == nbrs(e, n).len() + (if id == n {
            rids.len()
        } else {
            0nat
        }) + count_of(rids, n),
        total_degree(add_links(e, id, rids)) == total_degree(e) + 2 * rids.len(),
    decreases rids.len(),
{
    if rids.len() > 0 {
        let b = rids.last();
        lemma_add_links_degree(e, id, rids.drop_last(), n);
        lemma_add_links_unique(e, id, rids.drop_last());
        let e1 = add_links(e, id, rids.drop_last());
        lemma_nbrs_push(e1, id, b, n);
        lemma_push_nb(e1, id, b);
        lemma_nbrs_push(push_nb(e1, id, b), b, id, n);
        lemma_push_nb(push_nb(e1, id, b), b, id);
    }
}

/// Every declared link counts at both of its ends. In the graph of `ms`, the degree of
/// a node is the number of related ids that its memories declare plus the number of
/// times it is named as a related id (a link declared on both sides counts twice); the
/// total degree is twice the number of related ids, so the number of links is the
/// number of related ids.
pub proof fn law_degree_counts_links(ms: Seq<MemoryView>, n: Seq<char>)
    ensures
        nbrs(build(ms), n).len() == links_at(ms, n),
        total_degree(build(ms)) == 2 * total_links(ms),
        total_degree(build(ms)) / 2 == total_links(ms),
    decreases ms.len(),
{
    if ms.len() > 0 {
        let p = ms.drop_last();
        let m = ms.last();
        law_degree_counts_links(p, n);
        lemma_build_unique(p);
        lemma_nbrs_ensure(build(p), m.id, n);
        lemma_ensure_node(build(p), m.id);
        lemma_add_links_degree(ensure_node(build(p), m.id), m.id, m.related_ids, n);
    }
}

/// Every neighbour is itself a node.
pub open spec fn nbrs_are_nodes(e: Seq<Entry>) -> bool {
    forall|a: Seq<char>, b: Seq<char>| adjacent(e, a, b) ==> has_node(e, b)
}

/// Links run both ways.
pub open spec fn symmetric(e: Seq<Entry>) -> bool {
    forall|a: Seq<char>, b: Seq<char>| adjacent(e, a, b) ==> adjacent(e, b, a)
}

/// The neighbours of every node after `b` is pushed to `a`.
pub proof fn lemma_nbrs_push(e: Seq<Entry>, a: Seq<char>, b: Seq<char>, k: Seq<char>)
    requires
        keys_unique(e),
    ensures
        nbrs(push_nb(e, a, b), k) == (if k == a {
            nbrs(e, a).push(b)
        } else {
            nbrs(e, k)
        }),
{
    let e2 = push_nb(e, a, b);
    lemma_push_nb(e, a, b);
    if has_node(e, a) {
        lemma_key_present(e, a);
        let i = key_index(e, a);
        if k == a {
            lemma_key_index(e2, k, i);
        } else if has_node(e, k) {
            lemma_key_present(e, k);
            lemma_key_index(e2, k, key_index(e, k));
        } else {
            assert(!has_node(e2, k));
        }
    } else {
        lemma_key_absent(e, a);
        if k == a {
            lemma_key_index(e2, k, e.len() as int);
        } else if has_node(e, k) {
            lemma_key_present(e, k);
            lemma_key_index(e2, k, key_index(e, k));
        } else {
            assert(!has_node(e2, k));
        }
    }
}

/// The neighbours of every node after `a` is added as a node.
pub proof fn lemma_nbrs_ensure(e: Seq<Entry>, a: Seq<char>, k: Seq<char>)
    requires
        keys_unique(e),
    ensures
        nbrs(ensure_node(e, a), k) == nbrs(e, k),
        has_node(ensure_node(e, a), k) <==> (has_node(e, k) || k == a),
{
    let e2 = ensure_node(e, a);
    lemma_ensure_node(e, a);
    if !has_node(e, a) {
        lemma_key_absent(e, a);
        assert(e2 == e.push((a, Seq::<Seq<char>>::empty())));
        assert(e2[e.len() as int].0 == a);
        if has_node(e, k) {
            let j = choose|j: int| 0 <= j < e.len() && e[j].0 == k;
            assert(e2[j].0 == k);
            lemma_key_present(e, k);
            lemma_key_index(e2, k, key_index(e, k));
        } else if k == a {
            lemma_key_index(e2, k, e.len() as int);
        } else {
            assert forall|j: int| 0 <= j < e2.len() implies e2[j].0 != k by {
                if j < e.len() {
                    assert(e2[j] == e[j]);
                }
            }
            lemma_key_absent(e2, k);
            lemma_key_absent(e, k);
        }
    } else {
        lemma_key_present(e, a);
        assert(e2 == e);
    }
}

/// Linking `a` and `b` both ways keeps neighbours as nodes and links symmetric.
pub proof fn lemma_link_pair(e: Seq<Entry>, a: Seq<char>, b: Seq<char>)
    requires
        keys_unique(e),
        nbrs_are_nodes(e),
        symmetric(e),
    ensures
        nbrs_are_nodes(push_nb(push_nb(e, a, b), b, a)),
        symmetric(push_nb(push_nb(e, a, b), b, a)),
{
    let e1 = push_nb(e, a, b);
    let e2 = push_nb(e1, b, a);
    lemma_push_nb(e, a, b);
    lemma_push_nb(e1, b, a);
    assert forall|x: Seq<char>, y: Seq<char>| adjacent(e2, x, y) implies
        (adjacent(e, x, y) || (x == a && y == b) || (x == b && y == a)) by {
        lemma_nbrs_push(e1, b, a, x);
        lemma_nbrs_push(e, a, b, x);
        if x == b {
            if nbrs(e1, b).contains(y) {
            } else {
                let i = choose|i: int| 0 <= i < nbrs(e2, x).len() && nbrs(e2, x)[i] == y;
                assert(i == nbrs(e1, b).len() || nbrs(e1, b).contains(y));
            }
        }
        if x == a && x != b {
            let i = choose|i: int| 0 <= i < nbrs(e2, x).len() && nbrs(e2, x)[i] == y;
            assert(i == nbrs(e, a).len() || nbrs(e, a).contains(y));
        }
        if x == a && x == b {
            let i = choose|i: int| 0 <= i < nbrs(e2, x).len() && nbrs(e2, x)[i] == y;
            assert(i == nbrs(e1, b).len() || nbrs(e1, b).contains(y));
            if nbrs(e1, b).contains(y) {
                let j = choose|j: int| 0 <= j < nbrs(e1, x).len() && nbrs(e1, x)[j] == y;
                assert(j == nbrs(e, a).len() || nbrs(e, a).contains(y));
            }
        }
    }
    assert forall|x: Seq<char>, y: Seq<char>| adjacent(e, x, y) implies adjacent(e2, x, y) by {
        lemma_nbrs_push(e1, b, a, x);
        lemma_nbrs_push(e, a, b, x);
        let i = choose|i: int| 0 <= i < nbrs(e, x).len() && nbrs(e, x)[i] == y;
        if x == a {
            assert(nbrs(e1, x)[i] == y);
        }
        if x == b {
            assert(nbrs(e2, x)[i] == nbrs(e1, x)[i]);
        }
    }
    lemma_nbrs_push(e1, b, a, b);
    lemma_nbrs_push(e, a, b, a);
    lemma_nbrs_push(e1, b, a, a);
    lemma_nbrs_push(e, a, b, b);
    assert(nbrs(e2, b).last() == a);
    assert(adjacent(e2, b, a));
    if a == b {
        assert(adjacent(e2, a, b));
    } else {
        assert(nbrs(e1, a).last() == b);
        assert(nbrs(e2, a) == nbrs(e1, a));
        assert(nbrs(e2, a)[nbrs(e2, a).len() - 1] == b);
        assert(adjacent(e2, a, b));
    }
}

/// Adding a node keeps neighbours as nodes and links symmetric.
pub proof fn lemma_ensure_closed(e: Seq<Entry>, a: Seq<char>)
    requires
        keys_unique(e),
        nbrs_are_nodes(e),
        symmetric(e),
    ensures
        nbrs_are_nodes(ensure_node(e, a)),
        symmetric(ensure_node(e, a)),
{
    assert forall|x: Seq<char>, y: Seq<char>| adjacent(ensure_node(e, a), x, y) implies has_node(
        ensure_node(e, a),
        y,
    ) && adjacent(ensure_node(e, a), y, x) by {
        lemma_nbrs_ensure(e, a, x);
        lemma_nbrs_ensure(e, a, y);
        assert(adjacent(e, x, y));
        assert(has_node(e, y));
        assert(adjacent(e, y, x));
    }
}


/// Distinct nodes of a graph are no more than its nodes.
pub proof fn lemma_distinct_nodes_bound(e: Seq<Entry>, s: Seq<Seq<char>>)
    requires
        s.no_duplicates(),
        forall|i: int| 0 <= i < s.len() ==> has_node(e, #[trigger] s[i]),
    ensures
        s.len() <= e.len(),
{
    broadcast use vstd::seq_lib::seq_to_set_is_finite;

    let keys = e.map_values(|x: Entry| x.0);
    assert forall|x: Seq<char>| s.to_set().contains(x) implies keys.to_set().contains(x) by {
        let i = choose|i: int| 0 <= i < s.len() && s[i] == x;
        assert(has_node(e, s[i]));
        let j = choose|j: int| 0 <= j < e.len() && e[j].0 == x;
        assert(keys[j] == x);
    }
    s.unique_seq_to_set();
    keys.lemma_cardinality_of_set();
    vstd::set_lib::lemma_len_subset(s.to_set(), keys.to_set());
}

/// Pushing keeps what a sequence contains.
pub proof fn lemma_push_contains(s: Seq<Seq<char>>, x: Seq<char>)
    ensures
        s.push(x).contains(x),
        forall|y: Seq<char>| s.contains(y) ==> s.push(x).contains(y),
{
    assert(s.push(x)[s.len() as int] == x);
    assert forall|y: Seq<char>| s.contains(y) implies s.push(x).contains(y) by {
        let i = choose|i: int| 0 <= i < s.len() && s[i] == y;
        assert(s.push(x)[i] == y);
    }
}


/// Names are distinct and degrees do not increase.
pub open spec fn sorted_by_degree(r: Seq<(String, usize)>) -> bool {
    forall|a: int, b: int| 0 <= a < b < r.len() ==> r[a].0@ != r[b].0@ && r[a].1 >= r[b].1
}

/// Every pair of `r` is one of the first `i` entries with its degree, at least `min`.
pub open spec fn hubs_from(e: Seq<Entry>, i: int, r: Seq<(String, usize)>, min: usize) -> bool {
    forall|a: int| 0 <= a < r.len() ==> #[trigger] hub_from(e, i, r[a], min)
}

/// `r` holds `x`.
pub open spec fn holds<T>(r: Seq<T>, x: T) -> bool {
    exists|a: int| 0 <= a < r.len() && r[a] == x
}

/// `x` is one of the first `i` entries of `e`, with its degree, at least `min`.
pub open spec fn hub_from(e: Seq<Entry>, i: int, x: (String, usize), min: usize) -> bool {
    let k = key_index(e, x.0@);
    0 <= k < i && x.1 == e[k].1.len() && x.1 >= min
}

/// Inserts `(name, d)` after every pair of degree at least `d`.
fn insert_by_degree(r: &mut Vec<(String, usize)>, name: String, d: usize)
    requires
        sorted_by_degree(old(r)@),
        forall|a: int| 0 <= a < old(r)@.len() ==> old(r)@[a].0@ != name@,
    ensures
        sorted_by_degree(final(r)@),
        forall|x: (String, usize)|
            #[trigger] holds(final(r)@, x) <==> (x == (name, d) || holds(old(r)@, x)),
{
    let mut p: usize = 0;
    while p < r.len() && r[p].1 >= d
        invariant
            p <= r.len(),
            r@ == old(r)@,
            forall|a: int| 0 <= a < p ==> r@[a].1 >= d,
        decreases r.len() - p,
    {
        p = p + 1;
    }
    let ghost o = r@;
    assert forall|a: int| p <= a < o.len() implies o[a].1 < d by {
        if p < o.len() {
            assert(o[p as int].1 < d);
            if a > p {
                assert(o[p as int].1 >= o[a].1);
            }
        }
    }
    let ghost n = name;
    r.insert(p, (name, d));
    assert(r@ == o.insert(p as int, (n, d)));
    assert forall|a: int, b: int| 0 <= a < b < r@.len() implies r@[a].0@ != r@[b].0@ && r@[a].1 >= r@[b].1 by {
        if b < p {
            assert(r@[a] == o[a] && r@[b] == o[b]);
        } else if b == p {
            assert(r@[a] == o[a]);
        } else if a < p {
            assert(r@[a] == o[a] && r@[b] == o[b - 1]);
        } else if a == p {
            assert(r@[b] == o[b - 1]);
        } else {
            assert(r@[a] == o[a - 1] && r@[b] == o[b - 1]);
        }
    }
    assert forall|x: (String, usize)|
        #[trigger] holds(r@, x) <==> (x == (n, d) || holds(o, x)) by {
        if exists|a: int| 0 <= a < r@.len() && r@[a] == x {
            let a = choose|a: int| 0 <= a < r@.len() && r@[a] == x;
            if a > p {
                assert(o[a - 1] == x);
            } else if a < p {
                assert(o[a] == x);
            }
        }
        if x == (n, d) {
            assert(r@[p as int] == x);
        }
        if exists|a: int| 0 <= a < o.len() && o[a] == x {
            let a = choose|a: int| 0 <= a < o.len() && o[a] == x;
            if a < p {
                assert(r@[a] == x);
            } else {
                assert(r@[a + 1] == x);
            }
        }
    }
}


/// The member lists of a list of components.
pub open spec fn comp_views(r: Seq<Vec<String>>) -> Seq<Seq<Seq<char>>> {
    r.map_values(|c: Vec<String>| strs(c@))
}

/// `c` is a connected component of the graph: non-empty, without repeats, made of
/// nodes, holding every neighbour of its members, and every member reachable from
/// the first.
pub open spec fn is_component(e: Seq<Entry>, c: Seq<Seq<char>>) -> bool {
    &&& c.len() > 0
    &&& c.no_duplicates()
    &&& forall|i: int| 0 <= i < c.len() ==> has_node(e, #[trigger] c[i])
    &&& forall|x: Seq<char>, y: Seq<char>| c.contains(x) && #[trigger] adjacent(e, x, y) ==> c.contains(y)
    &&& forall|i: int| 0 <= i < c.len() ==> reachable(e, c[0], #[trigger] c[i])
}

/// No node lies in two of the lists.
pub open spec fn pairwise_disjoint(cs: Seq<Seq<Seq<char>>>) -> bool {
    forall|a: int, b: int, x: Seq<char>|
        0 <= a < cs.len() && 0 <= b < cs.len() && a != b && #[trigger] cs[a].contains(x) ==> !#[trigger] cs[b].contains(x)
}

/// Every list is a component, no two share a node, and every node lies in one.
pub open spec fn is_partition(e: Seq<Entry>, cs: Seq<Seq<Seq<char>>>) -> bool {
    &&& forall|a: int| 0 <= a < cs.len() ==> is_component(e, #[trigger] cs[a])
    &&& pairwise_disjoint(cs)
    &&& forall|k: Seq<char>| has_node(e, k) ==> exists|a: int| 0 <= a < cs.len() && #[trigger] cs[a].contains(k)
}

/// Longer lists come first.
pub open spec fn longest_first(cs: Seq<Seq<Seq<char>>>) -> bool {
    forall|a: int, b: int| 0 <= a < b < cs.len() ==> cs[a].len() >= cs[b].len()
}

/// What the search for the components keeps: found components that are disjoint,
/// and a list of the nodes already placed.
pub open spec fn placed(e: Seq<Entry>, cs: Seq<Seq<Seq<char>>>, visited: Seq<Seq<char>>) -> bool {
    &&& forall|a: int| 0 <= a < cs.len() ==> is_component(e, #[trigger] cs[a])
    &&& pairwise_disjoint(cs)
    &&& forall|a: int, x: Seq<char>| 0 <= a < cs.len() && #[trigger] cs[a].contains(x) ==> visited.contains(x)
    &&& forall|x: Seq<char>| #[trigger] visited.contains(x) ==> exists|a: int| 0 <= a < cs.len() && #[trigger] cs[a].contains(x)
}


/// What the concatenation of two lists contains.
pub proof fn lemma_concat_contains(a: Seq<Seq<char>>, b: Seq<Seq<char>>)
    ensures
        forall|x: Seq<char>| #[trigger] (a + b).contains(x) <==> (a.contains(x) || b.contains(x)),
{
    assert forall|x: Seq<char>| #[trigger] (a + b).contains(x) <==> (a.contains(x) || b.contains(x)) by {
        if (a + b).contains(x) {
            let i = choose|i: int| 0 <= i < (a + b).len() && (a + b)[i] == x;
            if i >= a.len() {
                assert(b[i - a.len()] == x);
            }
        }
        if a.contains(x) {
            let i = choose|i: int| 0 <= i < a.len() && a[i] == x;
            assert((a + b)[i] == x);
        }
        if b.contains(x) {
            let i = choose|i: int| 0 <= i < b.len() && b[i] == x;
            assert((a + b)[a.len() + i] == x);
        }
    }
}

/// Appends copies of `w` to `v`.
fn append_strings(v: &mut Vec<String>, w: &Vec<String>)
    ensures
        strs(final(v)@) == strs(old(v)@) + strs(w@),
{
    let mut k: usize = 0;
    while k < w.len()
        invariant
            k <= w.len(),
            strs(v@) == strs(old(v)@) + strs(w@).take(k as int),
        decreases w.len() - k,
    {
        let ghost before = strs(v@);
        v.push(w[k].clone());
        assert(strs(v@) =~= before.push(w@[k as int]@));
        assert(strs(w@).take(k + 1) =~= strs(w@).take(k as int).push(w@[k as int]@));
        assert(strs(v@) =~= strs(old(v)@) + strs(w@).take(k + 1));
        k = k + 1;
    }
    assert(strs(w@).take(w.len() as int) =~= strs(w@));
}

/// Inserts the component `c` after every component at least as long.
fn insert_by_len(r: &mut Vec<Vec<String>>, c: Vec<String>)
    requires
        longest_first(comp_views(old(r)@)),
        pairwise_disjoint(comp_views(old(r)@)),
        forall|a: int, x: Seq<char>|
            0 <= a < old(r)@.len() && #[trigger] comp_views(old(r)@)[a].contains(x) ==> !strs(c@).contains(x),
    ensures
        longest_first(comp_views(final(r)@)),
        pairwise_disjoint(comp_views(final(r)@)),
        forall|x: Seq<Seq<char>>|
            #[trigger] holds(comp_views(final(r)@), x) <==> (x == strs(c@) || holds(comp_views(old(r)@), x)),
{
    let ghost o = comp_views(r@);
    let ghost n = strs(c@);
    let d = c.len();
    let mut p: usize = 0;
    while p < r.len() && r[p].len() >= d
        invariant
            p <= r.len(),
            r@ == old(r)@,
            o == comp_views(r@),
            forall|a: int| 0 <= a < p ==> o[a].len() >= d,
        decreases r.len() - p,
    {
        p = p + 1;
    }
    assert forall|a: int| p <= a < o.len() implies o[a].len() < d by {
        if p < o.len() {
            assert(o[p as int].len() < d);
            if a > p {
                assert(o[p as int].len() >= o[a].len());
            }
        }
    }
    r.insert(p, c);
    let ghost m = comp_views(r@);
    assert(m =~= o.insert(p as int, n));
    assert forall|a: int, b: int| 0 <= a < b < m.len() implies m[a].len() >= m[b].len() by {
        if b < p {
            assert(m[a] == o[a] && m[b] == o[b]);
        } else if b == p {
            assert(m[a] == o[a]);
        } else if a < p {
            assert(m[a] == o[a] && m[b] == o[b - 1]);
        } else if a == p {
            assert(m[b] == o[b - 1]);
        } else {
            assert(m[a] == o[a - 1] && m[b] == o[b - 1]);
        }
    }
    assert forall|a: int, b: int, x: Seq<char>|
        0 <= a < m.len() && 0 <= b < m.len() && a != b && #[trigger] m[a].contains(x) implies !#[trigger] m[b].contains(x) by {
        let oa = if a < p { a } else { a - 1 };
        let ob = if b < p { b } else { b - 1 };
        if a != p && b != p {
            assert(m[a] == o[oa] && m[b] == o[ob]);
        } else if a == p {
            assert(m[b] == o[ob]);
            if m[b].contains(x) {
                assert(o[ob].contains(x));
            }
        } else {
            assert(m[a] == o[oa]);
            assert(o[oa].contains(x));
        }
    }
    assert forall|x: Seq<Seq<char>>| #[trigger] holds(m, x) <==> (x == n || holds(o, x)) by {
        if holds(m, x) {
            let a = choose|a: int| 0 <= a < m.len() && m[a] == x;
            if a > p {
                assert(o[a - 1] == x);
            } else if a < p {
                assert(o[a] == x);
            }
        }
        if x == n {
            assert(m[p as int] == x);
        }
        if holds(o, x) {
            let a = choose|a: int| 0 <= a < o.len() && o[a] == x;
            if a < p {
                assert(m[a] == x);
            } else {
                assert(m[a + 1] == x);
            }
        }
    }
}

/// The memory graph: its nodes in order of first appearance, each with its neighbours.
pub struct MemoryGraph {
    nodes: Vec<String>,
    adj: Vec<Vec<String>>,
}

impl MemoryGraph {
    /// The entries of the graph, in node order.
    pub closed spec fn entries(&self) -> Seq<Entry> {
        Seq::new(self.nodes.len() as nat, |i: int| (self.nodes@[i]@, strs(self.adj@[i]@)))
    }

    /// The graph's shape holds: parallel lists, unique nodes, a total degree that fits.
    pub closed spec fn wf(&self) -> bool {
        &&& self.shape()
        &&& nbrs_are_nodes(self.entries())
        &&& symmetric(self.entries())
    }

    /// Parallel lists, unique nodes and a total degree that fits.
    closed spec fn shape(&self) -> bool {
        &&& self.nodes.len() == self.adj.len()
        &&& keys_unique(self.entries())
        &&& total_degree(self.entries()) <= usize::MAX
    }

    /// Links run both ways: when `b` is a neighbour of `a`, `a` is a neighbour of `b`;
    /// and every neighbour is itself a node of the graph.
    pub proof fn law_links_both_ways(&self)
        requires
            self.wf(),
        ensures
            symmetric(self.entries()),
            nbrs_are_nodes(self.entries()),
    {
    }

    /// The index of a node, found by comparing names.
    fn index_of(&self, k: &str) -> (r: Option<usize>)
        requires
            self.shape(),
        ensures
            match r {
                Some(i) => i < self.nodes.len() && key_index(self.entries(), k@) == i,
                None => !has_node(self.entries(), k@) && key_index(self.entries(), k@) == -1,
            },
    {
        let mut i: usize = 0;
        while i < self.nodes.len()
            invariant
                i <= self.nodes.len(),
                self.nodes.len() == self.adj.len(),
                keys_unique(self.entries()),
                forall|j: int| 0 <= j < i ==> self.entries()[j].0 != k@,
            decreases self.nodes.len() - i,
        {
            if str_eq(self.nodes[i].as_str(), k) {
                proof {
                        lemma_key_index(self.entries(), k@, i as int);
                }
                return Some(i);
            }
            i = i + 1;
        }
        None
    }

    /// Appends `b` to the neighbours of `a`.
    fn push_neighbor(&mut self, a: &str, b: &str)
        requires
            old(self).shape(),
            total_degree(old(self).entries()) < usize::MAX,
        ensures
            final(self).shape(),
            final(self).entries() == push_nb(old(self).entries(), a@, b@),
    {
        proof {
                        lemma_push_nb(self.entries(), a@, b@);
        }
        let ghost e = self.entries();
        match self.index_of(a) {
            Some(i) => {
                let mut l = copy_strings(&self.adj[i]);
                l.push(b.to_owned());
                assert(strs(l@) =~= e[i as int].1.push(b@));
                self.adj.set(i, l);
                assert(self.entries() =~= e.update(i as int, (a@, e[i as int].1.push(b@))));
            },
            None => {
                let mut l: Vec<String> = Vec::new();
                l.push(b.to_owned());
                assert(strs(l@) =~= seq![b@]);
                self.nodes.push(a.to_owned());
                self.adj.push(l);
                assert(self.entries() =~= e.push((a@, seq![b@])));
            },
        }
    }

    /// Adds `a` as a node when it is new.
    fn add_node(&mut self, a: &str)
        requires
            old(self).shape(),
        ensures
            final(self).shape(),
            final(self).entries() == ensure_node(old(self).entries(), a@),
    {
        proof {
                        lemma_ensure_node(self.entries(), a@);
        }
        let ghost e = self.entries();
        match self.index_of(a) {
            Some(_) => {},
            None => {
                let l: Vec<String> = Vec::new();
                assert(strs(l@) =~= Seq::<Seq<char>>::empty());
                self.nodes.push(a.to_owned());
                self.adj.push(l);
                assert(self.entries() =~= e.push((a@, seq![])));
            },
        }
    }

    /// The graph of `memories`: each memory is a node; each related id links both ways.
    pub fn from_memories(memories: &[Memory]) -> (g: Self)
        requires
            2 * total_links(memory_views(memories@)) <= usize::MAX,
        ensures
            g.wf(),
            g.entries() == build(memory_views(memories@)),
    {
        let mut g = MemoryGraph { nodes: Vec::new(), adj: Vec::new() };
        let ghost ms = memory_views(memories@);
        assert(g.entries() =~= build(ms.take(0)));
        let mut i: usize = 0;
        while i < memories.len()
            invariant
                i <= memories.len(),
                ms == memory_views(memories@),
                2 * total_links(ms) <= usize::MAX,
                g.wf(),
                g.entries() == build(ms.take(i as int)),
                total_degree(g.entries()) == 2 * total_links(ms.take(i as int)),
            decreases memories.len() - i,
        {
            let m = &memories[i];
            assert(ms.take(i + 1).drop_last() =~= ms.take(i as int));
            assert(ms.take(i + 1).last() == m@);
            proof {
                lemma_ensure_node(g.entries(), m@.id);
                lemma_ensure_closed(g.entries(), m@.id);
                lemma_total_links_prefix(ms, i as int);
            }
            g.add_node(m.id.as_str());
            let ghost base = g.entries();
            let mut j: usize = 0;
            while j < m.related_ids.len()
                invariant
                    j <= m.related_ids.len(),
                    m@ == ms[i as int],
                    i < ms.len(),
                    2 * total_links(ms) <= usize::MAX,
                    total_links(ms.take(i as int)) + m@.related_ids.len() <= total_links(ms),
                    g.wf(),
                    g.entries() == add_links(base, m@.id, m@.related_ids.take(j as int)),
                    total_degree(g.entries()) == 2 * total_links(ms.take(i as int)) + 2 * j,
                decreases m.related_ids.len() - j,
            {
                let rid = m.related_ids[j].as_str();
                assert(m@.related_ids.take(j + 1).drop_last() =~= m@.related_ids.take(j as int));
                assert(m@.related_ids[j as int] == rid@);
                proof {
                        lemma_push_nb(g.entries(), m@.id, rid@);
                        lemma_push_nb(push_nb(g.entries(), m@.id, rid@), rid@, m@.id);
                        lemma_link_pair(g.entries(), m@.id, rid@);
                }
                g.push_neighbor(m.id.as_str(), rid);
                g.push_neighbor(rid, m.id.as_str());
                j = j + 1;
            }
            assert(m@.related_ids.take(j as int) =~= m@.related_ids);
            i = i + 1;
        }
        assert(ms.take(memories.len() as int) =~= ms);
        g
    }

    /// The neighbours of `node`, in the order the links were made (none for an unknown node).
    pub fn neighbors(&self, node: &str) -> (r: Vec<String>)
        requires
            self.wf(),
        ensures
            strs(r@) == nbrs(self.entries(), node@),
    {
        match self.index_of(node) {
            Some(i) => copy_strings(&self.adj[i]),
            None => {
                let r: Vec<String> = Vec::new();
                assert(strs(r@) =~= Seq::<Seq<char>>::empty());
                r
            },
        }
    }

    /// The number of neighbours of `node`.
    pub fn degree(&self, node: &str) -> (r: usize)
        requires
            self.wf(),
        ensures
            r == nbrs(self.entries(), node@).len(),
    {
        match self.index_of(node) {
            Some(i) => self.adj[i].len(),
            None => 0,
        }
    }

    /// Every node, once each.
    pub fn nodes(&self) -> (r: Vec<String>)
        requires
            self.wf(),
        ensures
            strs(r@) == self.entries().map_values(|x: Entry| x.0),
    {
        let r = copy_strings(&self.nodes);
        assert(strs(r@) =~= self.entries().map_values(|x: Entry| x.0));
        r
    }

    /// The number of links: half the total degree.
    pub fn edges(&self) -> (r: usize)
        requires
            self.wf(),
        ensures
            r == total_degree(self.entries()) / 2,
    {
        let ghost e = self.entries();
        let mut sum: usize = 0;
        let mut i: usize = 0;
        while i < self.adj.len()
            invariant
                i <= self.adj.len(),
                self.nodes.len() == self.adj.len(),
                e == self.entries(),
                total_degree(e) <= usize::MAX,
                sum == total_degree(e.take(i as int)),
            decreases self.adj.len() - i,
        {
            assert(e.take(i + 1).drop_last() =~= e.take(i as int));
            proof {
                lemma_total_degree_prefix(e, i + 1);
            }
            sum = sum + self.adj[i].len();
            i = i + 1;
        }
        assert(e.take(i as int) =~= e);
        sum / 2
    }

    /// A walk with the fewest links from `from` to `to`, found breadth first; `None`
    /// when no walk leads there.
    pub fn shortest_path(&self, from: &str, to: &str) -> (r: Option<Vec<String>>)
        requires
            self.wf(),
        ensures
            from@ == to@ ==> r is Some && strs(r->0@) == seq![from@],
            match r {
                Some(p) => is_walk(self.entries(), strs(p@), from@, to@) && forall|q: Seq<Seq<char>>|
                    #[trigger] is_walk(self.entries(), q, from@, to@) ==> p.len() <= q.len(),
                None => !reachable(self.entries(), from@, to@),
            },
    {
        let ghost e = self.entries();
        if str_eq(from, to) {
            let mut v: Vec<String> = Vec::new();
            v.push(from.to_owned());
            assert(strs(v@) =~= seq![from@]);
            return Some(v);
        }
        let mut qn: Vec<String> = Vec::new();
        let mut qp: Vec<Vec<String>> = Vec::new();
        qn.push(from.to_owned());
        let mut p0: Vec<String> = Vec::new();
        p0.push(from.to_owned());
        qp.push(p0);
        assert(strs(qp@[0]@) =~= seq![from@]);
        assert(strs(qn@) =~= seq![from@]);
        assert(qp@[0].len() == 1);
        assert forall|q: Seq<Seq<char>>, z: Seq<char>|
            #[trigger] is_walk(e, q, from@, z) && q.len() <= 1 implies strs(qn@).contains(z) by {
            assert(strs(qn@)[0] == z);
        }
        let mut h: usize = 0;
        while h < qn.len()
            invariant
                self.wf(),
                e == self.entries(),
                from@ != to@,
                qn.len() == qp.len(),
                1 <= qn.len(),
                h <= qn.len(),
                qn@[0]@ == from@,
                strs(qn@).no_duplicates(),
                forall|k: int| 1 <= k < qn.len() ==> has_node(e, #[trigger] qn@[k]@),
                forall|k: int|
                    0 <= k < qn.len() ==> is_walk(e, strs(#[trigger] qp@[k]@), from@, qn@[k]@),
                !strs(qn@).contains(to@),
                forall|k: int, y: Seq<char>|
                    0 <= k < h && #[trigger] adjacent(e, qn@[k]@, y) ==> strs(qn@).contains(y),
                forall|a: int, b: int| 0 <= a <= b < qn.len() ==> (#[trigger] qp@[a]).len() <= (#[trigger] qp@[b]).len(),
                forall|k: int, q: Seq<Seq<char>>|
                    0 <= k < qn.len() && #[trigger] is_walk(e, q, from@, qn@[k]@) ==> qp@[k].len() <= q.len(),
                h < qn.len() ==> forall|k: int| 0 <= k < qn.len() ==> (#[trigger] qp@[k]).len() <= qp@[h as int].len() + 1,
                h < qn.len() ==> covers(e, strs(qn@), from@, qp@[h as int].len() as int),
            decreases e.len() + 1 - h,
        {
            proof {
                assert(strs(qn@).skip(1).no_duplicates());
                assert forall|i: int| 0 <= i < strs(qn@).skip(1).len() implies has_node(
                    e,
                    #[trigger] strs(qn@).skip(1)[i],
                ) by {
                    assert(strs(qn@).skip(1)[i] == qn@[i + 1]@);
                }
                lemma_distinct_nodes_bound(e, strs(qn@).skip(1));
            }
            let u = qn[h].clone();
            let nb = self.neighbors(u.as_str());
            let mut j: usize = 0;
            while j < nb.len()
                invariant
                    self.wf(),
                    e == self.entries(),
                    from@ != to@,
                    qn.len() == qp.len(),
                    1 <= qn.len(),
                    h < qn.len(),
                    u@ == qn@[h as int]@,
                    strs(nb@) == nbrs(e, u@),
                    j <= nb.len(),
                    qn@[0]@ == from@,
                    strs(qn@).no_duplicates(),
                    forall|k: int| 1 <= k < qn.len() ==> has_node(e, #[trigger] qn@[k]@),
                    forall|k: int|
                        0 <= k < qn.len() ==> is_walk(e, strs(#[trigger] qp@[k]@), from@, qn@[k]@),
                    !strs(qn@).contains(to@),
                    forall|k: int, y: Seq<char>|
                        0 <= k < h && #[trigger] adjacent(e, qn@[k]@, y) ==> strs(qn@).contains(y),
                    forall|i: int| 0 <= i < j ==> strs(qn@).contains(#[trigger] strs(nb@)[i]),
                    forall|a: int, b: int| 0 <= a <= b < qn.len() ==> (#[trigger] qp@[a]).len() <= (#[trigger] qp@[b]).len(),
                    forall|k: int, q: Seq<Seq<char>>|
                        0 <= k < qn.len() && #[trigger] is_walk(e, q, from@, qn@[k]@) ==> qp@[k].len() <= q.len(),
                    forall|k: int| 0 <= k < qn.len() ==> (#[trigger] qp@[k]).len() <= qp@[h as int].len() + 1,
                    covers(e, strs(qn@), from@, qp@[h as int].len() as int),
                decreases nb.len() - j,
            {
                let y = nb[j].as_str();
                assert(strs(nb@)[j as int] == y@);
                assert(adjacent(e, u@, y@));
                if str_eq(y, to) {
                    let mut path = copy_strings(&qp[h]);
                    proof {
                        lemma_walk_extend(e, strs(path@), from@, u@, y@);
                    }
                    path.push(to.to_owned());
                    assert(strs(path@) =~= strs(qp@[h as int]@).push(y@));
                    assert forall|q: Seq<Seq<char>>| #[trigger] is_walk(e, q, from@, to@) implies path.len() <= q.len() by {
                        if q.len() <= qp@[h as int].len() {
                            assert(strs(qn@).contains(to@));
                        }
                    }
                    return Some(path);
                }
                if !crate::text::contains_str(qn.as_slice(), y) {
                    let mut path = copy_strings(&qp[h]);
                    proof {
                        lemma_walk_extend(e, strs(path@), from@, u@, y@);
                        lemma_push_contains(strs(qn@), y@);
                    }
                    path.push(y.to_owned());
                    assert(strs(path@) =~= strs(qp@[h as int]@).push(y@));
                    let ghost old_qn = strs(qn@);
                    let ghost old_qp = qp@;
                    assert forall|q: Seq<Seq<char>>| #[trigger] is_walk(e, q, from@, y@) implies path.len() <= q.len() by {
                        if q.len() <= qp@[h as int].len() {
                            assert(old_qn.contains(y@));
                        }
                    }
                    qn.push(y.to_owned());
                    qp.push(path);
                    assert(strs(qn@) =~= old_qn.push(y@));
                    assert(has_node(e, y@));
                    assert(qp@[qp.len() - 1] == path);
                    assert forall|k: int, q: Seq<Seq<char>>|
                        0 <= k < qn.len() && #[trigger] is_walk(e, q, from@, qn@[k]@) implies qp@[k].len() <= q.len() by {
                        if k < qn.len() - 1 {
                            assert(qp@[k] == old_qp[k]);
                        }
                    }
                    assert forall|q: Seq<Seq<char>>, z: Seq<char>|
                        #[trigger] is_walk(e, q, from@, z) && q.len() <= qp@[h as int].len() implies strs(qn@).contains(z) by {
                        assert(old_qn.contains(z));
                        let w = choose|w: int| 0 <= w < old_qn.len() && old_qn[w] == z;
                        assert(strs(qn@)[w] == z);
                    }
                }
                j = j + 1;
            }
            assert forall|k: int, y: Seq<char>|
                0 <= k < h + 1 && #[trigger] adjacent(e, qn@[k]@, y) implies strs(qn@).contains(y) by {
                if k == h {
                    let i = choose|i: int| 0 <= i < nbrs(e, u@).len() && nbrs(e, u@)[i] == y;
                    assert(strs(nb@)[i] == y);
                }
            }
            if h + 1 < qn.len() {
                let ghost lh = qp@[h as int].len() as int;
                let ghost ln = qp@[h + 1].len() as int;
                assert(lh <= ln <= lh + 1);
                assert forall|q: Seq<Seq<char>>, z: Seq<char>|
                    #[trigger] is_walk(e, q, from@, z) && q.len() <= ln implies strs(qn@).contains(z) by {
                    if q.len() > lh {
                        lemma_walk_prefix(e, q, from@, z);
                        let x = q[q.len() - 2];
                        assert(is_walk(e, q.drop_last(), from@, x));
                        assert(strs(qn@).contains(x));
                        let i = choose|i: int| 0 <= i < strs(qn@).len() && strs(qn@)[i] == x;
                        assert(qn@[i]@ == x);
                        assert(qp@[i].len() <= q.drop_last().len());
                        if i > h {
                            assert(qp@[h + 1].len() <= qp@[i].len());
                        }
                        assert(adjacent(e, qn@[i]@, z));
                    }
                }
            }
            h = h + 1;
        }
        proof {
            assert(strs(qn@)[0] == from@);
            assert forall|x: Seq<char>, y: Seq<char>|
                strs(qn@).contains(x) && adjacent(e, x, y) implies strs(qn@).contains(y) by {
                let k = choose|k: int| 0 <= k < strs(qn@).len() && strs(qn@)[k] == x;
                assert(qn@[k]@ == x);
            }
            lemma_closed_unreachable(e, strs(qn@), from@, to@);
        }
        None
    }

    /// The nodes with at least `min_degree` neighbours, with their degrees, most
    /// connected first (equal degrees keep node order).
    pub fn hub_nodes(&self, min_degree: usize) -> (r: Vec<(String, usize)>)
        requires
            self.wf(),
        ensures
            forall|i: int|
                0 <= i < r.len() ==> {
                    &&& has_node(self.entries(), (#[trigger] r@[i]).0@)
                    &&& r@[i].1 == nbrs(self.entries(), r@[i].0@).len()
                    &&& r@[i].1 >= min_degree
                },
            forall|k: Seq<char>|
                has_node(self.entries(), k) && nbrs(self.entries(), k).len() >= min_degree ==> exists|
                    i: int,
                | 0 <= i < r.len() && (#[trigger] r@[i]).0@ == k,
            sorted_by_degree(r@),
            is_hub_list(self.entries(), min_degree, hub_views(r@)),
    {
        let ghost e = self.entries();
        let mut r: Vec<(String, usize)> = Vec::new();
        let mut i: usize = 0;
        while i < self.nodes.len()
            invariant
                self.wf(),
                e == self.entries(),
                i <= self.nodes.len(),
                hubs_from(e, i as int, r@, min_degree),
                forall|k: int|
                    0 <= k < i && (#[trigger] e[k]).1.len() >= min_degree ==> exists|a: int|
                        0 <= a < r.len() && r@[a].0@ == e[k].0,
                sorted_by_degree(r@),
            decreases self.nodes.len() - i,
        {
            let d = self.adj[i].len();
            assert(e[i as int].1.len() == d);
            proof {
                lemma_key_index(e, e[i as int].0, i as int);
            }
            if d >= min_degree {
                let ghost old_r = r@;
                let name = self.nodes[i].clone();
                assert(name@ == e[i as int].0);
                assert forall|a: int| 0 <= a < old_r.len() implies old_r[a].0@ != name@ by {
                    assert(hub_from(e, i as int, old_r[a], min_degree));
                }
                insert_by_degree(&mut r, name, d);
                assert forall|a: int| 0 <= a < r@.len() implies #[trigger] hub_from(e, i + 1, r@[a], min_degree) by {
                    assert(holds(r@, r@[a]));
                    if r@[a] != (name, d) {
                        let b = choose|b: int| 0 <= b < old_r.len() && old_r[b] == r@[a];
                        assert(hub_from(e, i as int, old_r[b], min_degree));
                    }
                }
                assert forall|k: int|
                    0 <= k < i + 1 && (#[trigger] e[k]).1.len() >= min_degree implies exists|a: int|
                        0 <= a < r.len() && r@[a].0@ == e[k].0 by {
                    if k == i {
                        assert(holds(r@, (name, d)));
                        let a = choose|a: int| 0 <= a < r.len() && r@[a] == (name, d);
                    } else {
                        let b = choose|b: int| 0 <= b < old_r.len() && old_r[b].0@ == e[k].0;
                        assert(holds(old_r, old_r[b]));
                        assert(holds(r@, old_r[b]));
                        let a = choose|a: int| 0 <= a < r.len() && r@[a] == old_r[b];
                    }
                }
            } else {
                assert forall|a: int| 0 <= a < r@.len() implies #[trigger] hub_from(e, i + 1, r@[a], min_degree) by {
                    assert(hub_from(e, i as int, r@[a], min_degree));
                }
            }
            assert(hubs_from(e, i + 1, r@, min_degree));
            i = i + 1;
        }
        assert forall|i: int|
            0 <= i < r.len() implies {
                &&& has_node(e, (#[trigger] r@[i]).0@)
                &&& r@[i].1 == nbrs(e, r@[i].0@).len()
                &&& r@[i].1 >= min_degree
            } by {
            assert(hub_from(e, self.nodes.len() as int, r@[i], min_degree));
            let k = key_index(e, r@[i].0@);
            assert(is_key_at(e, r@[i].0@, k));
        }
        assert forall|k: Seq<char>|
            has_node(e, k) && nbrs(e, k).len() >= min_degree implies exists|i: int|
                0 <= i < r.len() && (#[trigger] r@[i]).0@ == k by {
            lemma_key_present(e, k);
            let j = key_index(e, k);
            assert(e[j].1.len() >= min_degree);
        }
        let ghost h = hub_views(r@);
        assert forall|k: Seq<char>| has_node(e, k) && nbrs(e, k).len() >= min_degree implies exists|i: int|
            0 <= i < h.len() && (#[trigger] h[i]).0 == k by {
            let i = choose|i: int| 0 <= i < r.len() && (#[trigger] r@[i]).0@ == k;
            assert(h[i].0 == k);
        }
        assert forall|i: int| 0 <= i < h.len() implies has_node(e, (#[trigger] h[i]).0)
            && h[i].1 == nbrs(e, h[i].0).len() && h[i].1 >= min_degree by {
            assert(h[i].0 == r@[i].0@);
        }
        r
    }

    /// The component of `start`, in breadth-first order, when no node of it is placed yet.
    fn component_from(&self, start: &str, visited: &Vec<String>, Ghost(cs): Ghost<Seq<Seq<Seq<char>>>>) -> (c: Vec<String>)
        requires
            self.wf(),
            has_node(self.entries(), start@),
            !strs(visited@).contains(start@),
            placed(self.entries(), cs, strs(visited@)),
        ensures
            is_component(self.entries(), strs(c@)),
            c@[0]@ == start@,
            forall|x: Seq<char>| strs(c@).contains(x) ==> !strs(visited@).contains(x),
    {
        let ghost e = self.entries();
        let ghost vis = strs(visited@);
        let mut c: Vec<String> = Vec::new();
        c.push(start.to_owned());
        assert(strs(c@) =~= seq![start@]);
        proof {
            let w = seq![start@];
            assert(is_walk(e, w, start@, start@));
        }
        let mut h: usize = 0;
        while h < c.len()
            invariant
                self.wf(),
                e == self.entries(),
                vis == strs(visited@),
                placed(e, cs, vis),
                1 <= c.len(),
                h <= c.len(),
                c@[0]@ == start@,
                strs(c@).no_duplicates(),
                forall|k: int| 0 <= k < c.len() ==> has_node(e, #[trigger] strs(c@)[k]),
                forall|k: int| 0 <= k < c.len() ==> reachable(e, start@, #[trigger] strs(c@)[k]),
                forall|x: Seq<char>| strs(c@).contains(x) ==> !vis.contains(x),
                forall|k: int, y: Seq<char>|
                    0 <= k < h && #[trigger] adjacent(e, c@[k]@, y) ==> strs(c@).contains(y),
            decreases e.len() - h,
        {
            proof {
                lemma_distinct_nodes_bound(e, strs(c@));
            }
            let u = c[h].clone();
            assert(strs(c@)[h as int] == u@);
            assert(strs(c@).contains(u@));
            let nb = self.neighbors(u.as_str());
            let mut j: usize = 0;
            while j < nb.len()
                invariant
                    self.wf(),
                    e == self.entries(),
                    vis == strs(visited@),
                    placed(e, cs, vis),
                    1 <= c.len(),
                    h < c.len(),
                    u@ == c@[h as int]@,
                    strs(c@).contains(u@),
                    strs(nb@) == nbrs(e, u@),
                    j <= nb.len(),
                    c@[0]@ == start@,
                    strs(c@).no_duplicates(),
                    forall|k: int| 0 <= k < c.len() ==> has_node(e, #[trigger] strs(c@)[k]),
                    forall|k: int| 0 <= k < c.len() ==> reachable(e, start@, #[trigger] strs(c@)[k]),
                    forall|x: Seq<char>| strs(c@).contains(x) ==> !vis.contains(x),
                    forall|k: int, y: Seq<char>|
                        0 <= k < h && #[trigger] adjacent(e, c@[k]@, y) ==> strs(c@).contains(y),
                    forall|i: int| 0 <= i < j ==> strs(c@).contains(#[trigger] strs(nb@)[i]),
                decreases nb.len() - j,
            {
                let y = nb[j].as_str();
                assert(strs(nb@)[j as int] == y@);
                assert(adjacent(e, u@, y@));
                if crate::text::contains_str(visited.as_slice(), y) {
                    proof {
                        let a = choose|a: int| 0 <= a < cs.len() && #[trigger] cs[a].contains(y@);
                        assert(adjacent(e, y@, u@));
                        assert(is_component(e, cs[a]));
                        assert(cs[a].contains(u@));
                        assert(vis.contains(u@));
                    }
                } else if !crate::text::contains_str(c.as_slice(), y) {
                    proof {
                        let k = choose|k: int| 0 <= k < strs(c@).len() && strs(c@)[k] == u@;
                        assert(reachable(e, start@, strs(c@)[k]));
                        let w = choose|w: Seq<Seq<char>>| is_walk(e, w, start@, u@);
                        lemma_walk_extend(e, w, start@, u@, y@);
                        lemma_push_contains(strs(c@), y@);
                    }
                    let ghost old_c = strs(c@);
                    c.push(y.to_owned());
                    assert(strs(c@) =~= old_c.push(y@));
                    assert(has_node(e, y@));
                    assert forall|x: Seq<char>| strs(c@).contains(x) implies !vis.contains(x) by {
                        let k = choose|k: int| 0 <= k < strs(c@).len() && strs(c@)[k] == x;
                        if k < old_c.len() {
                            assert(old_c[k] == x);
                        }
                    }
                }
                j = j + 1;
            }
            assert forall|k: int, y: Seq<char>|
                0 <= k < h + 1 && #[trigger] adjacent(e, c@[k]@, y) implies strs(c@).contains(y) by {
                if k == h {
                    let i = choose|i: int| 0 <= i < nbrs(e, u@).len() && nbrs(e, u@)[i] == y;
                    assert(strs(nb@)[i] == y);
                }
            }
            h = h + 1;
        }
        assert forall|x: Seq<char>, y: Seq<char>|
            strs(c@).contains(x) && #[trigger] adjacent(e, x, y) implies strs(c@).contains(y) by {
            let k = choose|k: int| 0 <= k < strs(c@).len() && strs(c@)[k] == x;
            assert(c@[k]@ == x);
        }
        assert(strs(c@)[0] == start@);
        c
    }

    /// The connected components, each in breadth-first order from its first node,
    /// largest first.
    pub fn connected_components(&self) -> (r: Vec<Vec<String>>)
        requires
            self.wf(),
        ensures
            is_partition(self.entries(), comp_views(r@)),
            longest_first(comp_views(r@)),
    {
        let ghost e = self.entries();
        let mut comps: Vec<Vec<String>> = Vec::new();
        let mut visited: Vec<String> = Vec::new();
        assert(comp_views(comps@) =~= Seq::<Seq<Seq<char>>>::empty());
        assert(strs(visited@) =~= Seq::<Seq<char>>::empty());
        let mut i: usize = 0;
        while i < self.nodes.len()
            invariant
                self.wf(),
                e == self.entries(),
                i <= self.nodes.len(),
                placed(e, comp_views(comps@), strs(visited@)),
                forall|k: int| 0 <= k < i ==> strs(visited@).contains(#[trigger] e[k].0),
            decreases self.nodes.len() - i,
        {
            let name = self.nodes[i].as_str();
            assert(e[i as int].0 == name@);
            if !crate::text::contains_str(visited.as_slice(), name) {
                proof {
                    lemma_key_index(e, name@, i as int);
                }
                let ghost cs = comp_views(comps@);
                let ghost vis = strs(visited@);
                let c = self.component_from(name, &visited, Ghost(cs));
                let ghost cv = strs(c@);
                append_strings(&mut visited, &c);
                comps.push(c);
                proof {
                    lemma_concat_contains(vis, cv);
                    let ncs = comp_views(comps@);
                    assert(ncs =~= cs.push(cv));
                    assert(strs(visited@) == vis + cv);
                    assert forall|a: int| 0 <= a < ncs.len() implies is_component(e, #[trigger] ncs[a]) by {
                        if a < cs.len() {
                            assert(ncs[a] == cs[a]);
                        }
                    }
                    assert forall|a: int, b: int, x: Seq<char>|
                        0 <= a < ncs.len() && 0 <= b < ncs.len() && a != b && #[trigger] ncs[a].contains(x) implies !#[trigger] ncs[b].contains(x) by {
                        if a < cs.len() && b < cs.len() {
                            assert(ncs[a] == cs[a] && ncs[b] == cs[b]);
                        } else if a < cs.len() {
                            assert(ncs[a] == cs[a]);
                            assert(vis.contains(x));
                        } else {
                            assert(ncs[b] == cs[b]);
                            if ncs[b].contains(x) {
                                assert(vis.contains(x));
                            }
                        }
                    }
                    assert forall|a: int, x: Seq<char>|
                        0 <= a < ncs.len() && #[trigger] ncs[a].contains(x) implies strs(visited@).contains(x) by {
                        if a < cs.len() {
                            assert(ncs[a] == cs[a]);
                        }
                    }
                    assert forall|x: Seq<char>| #[trigger] strs(visited@).contains(x) implies exists|a: int|
                        0 <= a < ncs.len() && #[trigger] ncs[a].contains(x) by {
                        if vis.contains(x) {
                            let a = choose|a: int| 0 <= a < cs.len() && #[trigger] cs[a].contains(x);
                            assert(ncs[a] == cs[a]);
                        } else {
                            assert(ncs[cs.len() as int] == cv);
                        }
                    }
                    assert(cv[0] == name@);
                    assert(cv.contains(name@));
                }
            }
            i = i + 1;
        }
        let ghost cs = comp_views(comps@);
        let mut out: Vec<Vec<String>> = Vec::new();
        assert(comp_views(out@) =~= Seq::<Seq<Seq<char>>>::empty());
        let mut rest = comps;
        let ghost mut taken: Seq<Seq<Seq<char>>> = Seq::empty();
        while rest.len() > 0
            invariant
                self.wf(),
                e == self.entries(),
                placed(e, cs, strs(visited@)),
                forall|k: int| 0 <= k < e.len() ==> strs(visited@).contains(#[trigger] e[k].0),
                comp_views(rest@) == cs.skip(taken.len() as int),
                taken == cs.take(taken.len() as int),
                taken.len() <= cs.len(),
                longest_first(comp_views(out@)),
                pairwise_disjoint(comp_views(out@)),
                forall|x: Seq<Seq<char>>| #[trigger] holds(comp_views(out@), x) <==> holds(taken, x),
            decreases rest.len(),
        {
            let ghost t: int = taken.len() as int;
            let ghost before = rest@;
            assert(comp_views(before).len() == before.len());
            assert(cs.skip(t).len() == cs.len() - t);
            assert(t < cs.len());
            assert(cs.skip(t)[0] == cs[t]);
            assert(comp_views(before)[0] == strs(before[0]@));
            let c = rest.remove(0);
            assert(c == before[0]);
            assert(strs(c@) == cs[t]);
            proof {
                assert forall|a: int, x: Seq<char>|
                    0 <= a < comp_views(out@).len() && #[trigger] comp_views(out@)[a].contains(x) implies !strs(c@).contains(x) by {
                    assert(holds(comp_views(out@), comp_views(out@)[a]));
                    let b = choose|b: int| 0 <= b < taken.len() && taken[b] == comp_views(out@)[a];
                    assert(cs[b] == taken[b]);
                    assert(cs[b].contains(x));
                    assert(!cs[t].contains(x));
                }
            }
            insert_by_len(&mut out, c);
            proof {
                let nt = cs.take(t + 1);
                assert forall|x: Seq<Seq<char>>| #[trigger] holds(comp_views(out@), x) <==> holds(nt, x) by {
                    if holds(taken, x) {
                        let b = choose|b: int| 0 <= b < taken.len() && taken[b] == x;
                        assert(nt[b] == x);
                    }
                    if x == cs[t] {
                        assert(nt[t] == x);
                    }
                    if holds(nt, x) {
                        let b = choose|b: int| 0 <= b < nt.len() && nt[b] == x;
                        if b < t {
                            assert(taken[b] == x);
                        }
                    }
                }
                taken = nt;
                assert(rest@ =~= before.skip(1));
                assert(taken.len() == t + 1);
                assert(comp_views(rest@) =~= comp_views(before).skip(1));
                assert(cs.skip(t).skip(1) =~= cs.skip(t + 1));
                assert(comp_views(rest@) =~= cs.skip(taken.len() as int));
            }
        }
        proof {
            assert(taken =~= cs);
            let ov = comp_views(out@);
            assert forall|a: int| 0 <= a < ov.len() implies is_component(e, #[trigger] ov[a]) by {
                assert(holds(ov, ov[a]));
                let b = choose|b: int| 0 <= b < cs.len() && cs[b] == ov[a];
            }
            assert forall|k: Seq<char>| has_node(e, k) implies exists|a: int|
                0 <= a < ov.len() && #[trigger] ov[a].contains(k) by {
                lemma_key_present(e, k);
                let j = key_index(e, k);
                assert(strs(visited@).contains(e[j].0));
                let b = choose|b: int| 0 <= b < cs.len() && #[trigger] cs[b].contains(k);
                assert(holds(cs, cs[b]));
                assert(holds(taken, cs[b]));
                assert(holds(ov, cs[b]));
                let a = choose|a: int| 0 <= a < ov.len() && ov[a] == cs[b];
                assert(ov[a].contains(k));
            }
        }
        out
    }

    /// The nodes without neighbours, in node order.
    pub fn isolated_nodes(&self) -> (r: Vec<String>)
        requires
            self.wf(),
        ensures
            strs(r@) == self.entries().filter(|x: Entry| x.1.len() == 0).map_values(
                |x: Entry| x.0,
            ),
    {
        let ghost e = self.entries();
        let ghost f = |x: Entry| x.1.len() == 0;
        let mut r: Vec<String> = Vec::new();
        let mut i: usize = 0;
        while i < self.nodes.len()
            invariant
                i <= self.nodes.len(),
                self.nodes.len() == self.adj.len(),
                e == self.entries(),
                f == (|x: Entry| x.1.len() == 0),
                strs(r@) == e.take(i as int).filter(f).map_values(|x: Entry| x.0),
            decreases self.nodes.len() - i,
        {
            assert(e.take(i + 1).drop_last() =~= e.take(i as int));
            assert(e.take(i + 1).last() == e[i as int]);
            assert(e[i as int].1 == strs(self.adj@[i as int]@));
            assert(e[i as int].1.len() == self.adj@[i as int]@.len());
            assert(f(e[i as int]) == (e[i as int].1.len() == 0));
            reveal_with_fuel(Seq::filter, 1);
            if self.adj[i].len() == 0 {
                let ghost old_r = r@;
                r.push(self.nodes[i].clone());
                assert(strs(r@) =~= strs(old_r).push(e[i as int].0));
                assert(e.take(i + 1).filter(f) =~= e.take(i as int).filter(f).push(e[i as int]));
            } else {
                assert(e.take(i + 1).filter(f) =~= e.take(i as int).filter(f));
            }
            assert(e.take(i + 1).filter(f).map_values(|x: Entry| x.0) =~= strs(r@));
            i = i + 1;
        }
        assert(e.take(i as int) =~= e);
        r
    }
}

/// Prefix sums of total degree.
pub proof fn lemma_total_degree_prefix(e: Seq<Entry>, i: int)
    requires
        0 <= i <= e.len(),
    ensures
        total_degree(e.take(i)) <= total_degree(e),
    decreases e.len() - i,
{
    if i < e.len() {
        lemma_total_degree_prefix(e, i + 1);
        assert(e.take(i + 1).drop_last() =~= e.take(i));
    } else {
        assert(e.take(i) =~= e);
    }
}

/// Prefix sums of link counts.
pub proof fn lemma_total_links_prefix(ms: Seq<MemoryView>, i: int)
    requires
        0 <= i < ms.len(),
    ensures
        total_links(ms.take(i)) + ms[i].related_ids.len() <= total_links(ms),
    decreases ms.len() - i,
{
    assert(ms.take(i + 1).drop_last() =~= ms.take(i));
    if i + 1 < ms.len() {
        lemma_total_links_prefix(ms, i + 1);
    } else {
        assert(ms.take(i + 1) =~= ms);
    }
}


/// The plain value of a hub list.
pub open spec fn hub_views(r: Seq<(String, usize)>) -> Seq<(Seq<char>, usize)> {
    r.map_values(|p: (String, usize)| (p.0@, p.1))
}

/// `h` lists each node with at least `min` neighbours once, with its degree, most
/// connected first.
pub open spec fn is_hub_list(e: Seq<Entry>, min: usize, h: Seq<(Seq<char>, usize)>) -> bool {
    &&& forall|i: int| 0 <= i < h.len() ==> has_node(e, (#[trigger] h[i]).0) && h[i].1 == nbrs(e, h[i].0).len()
        && h[i].1 >= min
    &&& forall|k: Seq<char>| has_node(e, k) && nbrs(e, k).len() >= min ==> exists|i: int| 0 <= i < h.len() && (#[trigger] h[i]).0 == k
    &&& forall|a: int, b: int| 0 <= a < b < h.len() ==> h[a].0 != h[b].0 && h[a].1 >= h[b].1
}

/// One line per hub: the first eight bytes of its id and its number of connections.
pub open spec fn hub_lines(h: Seq<(Seq<char>, usize)>) -> Seq<char>
    decreases h.len(),
{
    if h.len() == 0 {
        seq![]
    } else {
        hub_lines(h.drop_last()) + "  "@ + byte_cut(h.last().0, 8) + ": "@ + decimal(h.last().1 as nat)
            + " connections\n"@
    }
}

/// The statistics text of a graph with the given counts and hubs (the first five shown).
pub open spec fn stats_text(nodes: nat, edges: nat, comps: nat, isolated: nat, hubs: Seq<(Seq<char>, usize)>) -> Seq<char> {
    "Graph Statistics\n================\n\nNodes: "@ + decimal(nodes) + "\nEdges: "@ + decimal(edges)
        + "\nComponents: "@ + decimal(comps) + "\nIsolated nodes: "@ + decimal(isolated) + "\n"@
        + (if hubs.len() > 0 {
            "\nHub nodes (degree >= 2):\n"@ + hub_lines(crate::store::first_n(hubs, 5))
        } else {
            seq![]
        })
}

/// Five distinct nodes have more neighbours than `k`, so `k` is not among the five
/// most connected nodes that the statistics show.
pub open spec fn five_above(e: Seq<Entry>, k: Seq<char>) -> bool {
    exists|s: Seq<Seq<char>>| #![trigger s.no_duplicates()]
        s.len() == 5 && s.no_duplicates() && forall|t: int| 0 <= t < 5
            ==> has_node(e, #[trigger] s[t]) && nbrs(e, s[t]).len() > nbrs(e, k).len()
}

/// Writes the statistics of a graph: its nodes, links, components and isolated nodes,
/// then the five most connected nodes with at least two neighbours.
pub fn format_graph_stats(graph: &MemoryGraph) -> (r: String)
    requires
        graph.wf(),
        forall|k: Seq<char>| has_node(graph.entries(), k) && nbrs(graph.entries(), k).len() >= 2
            && !five_above(graph.entries(), k) ==> fits_at(k, 8),
    ensures
        exists|comps: Seq<Seq<Seq<char>>>, hubs: Seq<(Seq<char>, usize)>|
            #![trigger is_partition(graph.entries(), comps), is_hub_list(graph.entries(), 2, hubs)]
            is_partition(graph.entries(), comps) && is_hub_list(graph.entries(), 2, hubs)
            && r@ == stats_text(
                graph.entries().len(),
                total_degree(graph.entries()) / 2,
                comps.len(),
                graph.entries().filter(|x: Entry| x.1.len() == 0).len(),
                hubs,
            ),
{
    let ghost e = graph.entries();
    let nodes = graph.nodes();
    let edges = graph.edges();
    let comps = graph.connected_components();
    let isolated = graph.isolated_nodes();
    let hubs = graph.hub_nodes(2);
    assert(strs(nodes@).len() == e.len());
    assert(strs(isolated@).len() == e.filter(|x: Entry| x.1.len() == 0).len());
    let mut out = "Graph Statistics\n================\n\nNodes: ".to_owned();
    push_decimal(&mut out, nodes.len());
    append_str(&mut out, "\nEdges: ");
    push_decimal(&mut out, edges);
    append_str(&mut out, "\nComponents: ");
    push_decimal(&mut out, comps.len());
    append_str(&mut out, "\nIsolated nodes: ");
    push_decimal(&mut out, isolated.len());
    append_str(&mut out, "\n");
    let ghost h = hub_views(hubs@);
    if hubs.len() > 0 {
        append_str(&mut out, "\nHub nodes (degree >= 2):\n");
        let ghost head = out@;
        let shown: usize = if hubs.len() < 5 { hubs.len() } else { 5 };
        assert(crate::store::first_n(h, 5) =~= h.take(shown as int));
        let mut i: usize = 0;
        assert(h.take(0) =~= Seq::<(Seq<char>, usize)>::empty());
        while i < shown
            invariant
                i <= shown <= hubs.len(),
                h == hub_views(hubs@),
                out@ == head + hub_lines(h.take(i as int)),
            decreases shown - i,
        {
            let id = byte_prefix(hubs[i].0.as_str(), 8);
            append_str(&mut out, "  ");
            append_str(&mut out, id.as_str());
            append_str(&mut out, ": ");
            push_decimal(&mut out, hubs[i].1);
            append_str(&mut out, " connections\n");
            assert(h.take(i + 1).drop_last() =~= h.take(i as int));
            assert(h.take(i + 1).last() == h[i as int]);
            i = i + 1;
        }
    }
    assert(out@ =~= stats_text(e.len(), total_degree(e) / 2, comp_views(comps@).len(),
        e.filter(|x: Entry| x.1.len() == 0).len(), h));
    out
}

} // verus!
