//! Merging a group of duplicate memories into one.

use vstd::prelude::*;
use crate::text::{strs, push_absent, contains_str};
use crate::types::{Memory, MemoryView, memory_views};
use crate::runtime::now_micros;

verus! {

/// `i` is the last of the most recently updated memories.
pub open spec fn is_newest_last(ms: Seq<MemoryView>, i: int) -> bool {
    &&& 0 <= i < ms.len()
    &&& forall|j: int| 0 <= j < ms.len() ==> #[trigger] ms[j].updated_at <= ms[i].updated_at
    &&& forall|j: int| i < j < ms.len() ==> #[trigger] ms[j].updated_at < ms[i].updated_at
}

/// `v` with each of `xs` appended in turn unless it is there already or excluded.
pub open spec fn add_new(v: Seq<Seq<char>>, xs: Seq<Seq<char>>, excluded: Seq<Seq<char>>) -> Seq<Seq<char>>
    decreases xs.len(),
{
    if xs.len() == 0 {
        v
    } else {
        let w = add_new(v, xs.drop_last(), excluded);
        if excluded.contains(xs.last()) {
            w
        } else {
            push_absent(w, xs.last())
        }
    }
}

/// The tags of the first `k` memories, each once, in order of first use.
pub open spec fn merged_tags(ms: Seq<MemoryView>, k: int) -> Seq<Seq<char>>
    decreases k,
{
    if k <= 0 || k > ms.len() {
        Seq::empty()
    } else {
        add_new(merged_tags(ms, k - 1), ms[k - 1].tags, Seq::empty())
    }
}

/// The ids of some memories.
pub open spec fn ids_of(ms: Seq<MemoryView>) -> Seq<Seq<char>> {
    ms.map_values(|m: MemoryView| m.id)
}

/// The related ids of the first `k` memories, each once, in order of first use,
/// without the ids of the memories themselves.
pub open spec fn merged_related(ms: Seq<MemoryView>, k: int) -> Seq<Seq<char>>
    decreases k,
{
    if k <= 0 || k > ms.len() {
        Seq::empty()
    } else {
        add_new(merged_related(ms, k - 1), ms[k - 1].related_ids, ids_of(ms))
    }
}

/// The earliest creation time among the memories.
pub open spec fn earliest_created(ms: Seq<MemoryView>) -> i64
    decreases ms.len(),
{
    if ms.len() <= 1 {
        ms[0].created_at
    } else {
        let e = earliest_created(ms.drop_last());
        if ms.last().created_at < e {
            ms.last().created_at
        } else {
            e
        }
    }
}

/// The merge of a group: the last of its most recently updated memories, with the
/// tags of all (each once, in order of first use), their related ids (each once,
/// none of the group's own), the earliest creation time, and updated at `now`.
pub open spec fn merged(ms: Seq<MemoryView>, base: MemoryView, now: i64) -> MemoryView {
    MemoryView {
        id: base.id,
        kind: base.kind,
        key: base.key,
        content: base.content,
        tags: merged_tags(ms, ms.len() as int),
        related_ids: merged_related(ms, ms.len() as int),
        created_at: earliest_created(ms),
        updated_at: now,
    }
}

/// Appends each of `xs` unless it is there already or excluded.
fn add_new_strings(v: &mut Vec<String>, xs: &Vec<String>, excluded: &Vec<String>)
    ensures
        strs(final(v)@) == add_new(strs(old(v)@), strs(xs@), strs(excluded@)),
{
    let ghost start = strs(v@);
    let mut i: usize = 0;
    while i < xs.len()
        invariant
            i <= xs.len(),
            strs(v@) == add_new(start, strs(xs@).take(i as int), strs(excluded@)),
        decreases xs.len() - i,
    {
        assert(strs(xs@).take(i + 1).drop_last() =~= strs(xs@).take(i as int));
        assert(strs(xs@).take(i + 1).last() == xs@[i as int]@);
        let ghost prev = strs(v@);
        if !contains_str(excluded.as_slice(), xs[i].as_str()) && !contains_str(v.as_slice(), xs[i].as_str()) {
            v.push(xs[i].clone());
            assert(strs(v@) =~= prev.push(xs@[i as int]@));
        }
        i = i + 1;
    }
    assert(strs(xs@).take(xs.len() as int) =~= strs(xs@));
}

/// Merges a group of duplicates into one memory updated at `now`.
pub fn merge_memories_at(memories: &[Memory], now: i64) -> (r: Memory)
    requires
        memories.len() > 0,
    ensures
        exists|i: int| is_newest_last(memory_views(memories@), i) && r@ == merged(
            memory_views(memories@),
            memory_views(memories@)[i],
            now,
        ),
{
    let ghost ms = memory_views(memories@);
    let mut b: usize = 0;
    let mut i: usize = 1;
    while i < memories.len()
        invariant
            1 <= i <= memories.len(),
            b < i,
            ms == memory_views(memories@),
            forall|j: int| 0 <= j < i ==> #[trigger] ms[j].updated_at <= ms[b as int].updated_at,
            forall|j: int| b < j < i ==> #[trigger] ms[j].updated_at < ms[b as int].updated_at,
        decreases memories.len() - i,
    {
        if memories[i].updated_at >= memories[b].updated_at {
            b = i;
        }
        i = i + 1;
    }
    let mut ids: Vec<String> = Vec::new();
    let mut k: usize = 0;
    while k < memories.len()
        invariant
            k <= memories.len(),
            ms == memory_views(memories@),
            strs(ids@) == ids_of(ms).take(k as int),
        decreases memories.len() - k,
    {
        let ghost prev = strs(ids@);
        ids.push(memories[k].id.clone());
        assert(strs(ids@) =~= prev.push(ms[k as int].id));
        assert(ids_of(ms).take(k + 1) =~= ids_of(ms).take(k as int).push(ms[k as int].id));
        k = k + 1;
    }
    assert(strs(ids@) =~= ids_of(ms));
    let no_ids: Vec<String> = Vec::new();
    assert(strs(no_ids@) =~= Seq::<Seq<char>>::empty());
    let mut tags: Vec<String> = Vec::new();
    let mut related: Vec<String> = Vec::new();
    let mut created = memories[0].created_at;
    let mut k: usize = 0;
    while k < memories.len()
        invariant
            k <= memories.len(),
            ms == memory_views(memories@),
            strs(ids@) == ids_of(ms),
            strs(no_ids@) == Seq::<Seq<char>>::empty(),
            strs(tags@) == merged_tags(ms, k as int),
            strs(related@) == merged_related(ms, k as int),
            k > 0 ==> created == earliest_created(ms.take(k as int)),
            k == 0 ==> created == ms[0].created_at,
        decreases memories.len() - k,
    {
        add_new_strings(&mut tags, &memories[k].tags, &no_ids);
        add_new_strings(&mut related, &memories[k].related_ids, &ids);
        if k > 0 {
            assert(ms.take(k + 1).drop_last() =~= ms.take(k as int));
            if memories[k].created_at < created {
                created = memories[k].created_at;
            }
        } else {
            assert(ms.take(1).len() == 1);
        }
        k = k + 1;
    }
    assert(ms.take(memories.len() as int) =~= ms);
    let base = &memories[b];
    let r = Memory {
        id: base.id.clone(),
        kind: base.kind,
        key: base.key.clone(),
        content: base.content.clone(),
        tags,
        related_ids: related,
        created_at: created,
        updated_at: now,
    };
    assert(is_newest_last(ms, b as int));
    assert(r@ == merged(ms, ms[b as int], now));
    r
}

/// Merges a group of duplicates into one memory updated now.
pub fn merge_group(memories: &[Memory]) -> (r: Memory)
    requires
        memories.len() > 0,
    ensures
        exists|i: int| is_newest_last(memory_views(memories@), i) && r@ == merged(
            memory_views(memories@),
            memory_views(memories@)[i],
            r.updated_at,
        ),
{
    let now = now_micros();
    merge_memories_at(memories, now)
}

} // verus!
