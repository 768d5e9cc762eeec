//! Bringing memories from one store into another: a sync copies, in one direction or
//! both, those whose key the receiving store does not have; a bundle import adds all,
//! only those whose key is new (`skip`), or replaces those whose key it has
//! (`overwrite`).

use vstd::prelude::*;
use crate::store::{MemoryStore, StoreError, first_n, recent_first, added_from, is_made_from};
use crate::text::{contains_str, str_eq};
use crate::types::{
    Memory, MemoryView, MemoryInput, MemoryInputView, memory_views, input_views, copy_strings,
};

verus! {

/// What a sync did: how many memories it added, and the keys it could not settle.
#[derive(Debug)]
pub struct SyncState {
    pub memories_synced: usize,
    pub conflicts: Vec<String>,
}

/// The input that recreates a memory's fields.
pub open spec fn input_of(m: MemoryView) -> MemoryInputView {
    MemoryInputView {
        kind: m.kind,
        key: m.key,
        content: m.content,
        tags: m.tags,
        related_ids: m.related_ids,
    }
}

/// The memories a store exports: most recently updated first, up to a million.
pub open spec fn exported(ms: Seq<MemoryView>) -> Seq<MemoryView> {
    first_n(recent_first(ms), 1000000)
}

/// The keys of a sequence of memories.
pub open spec fn keys_of(ms: Seq<MemoryView>) -> Seq<Seq<char>> {
    ms.map_values(|m: MemoryView| m.key)
}

/// The test "has a key not among `keys`".
pub open spec fn key_absent(keys: Seq<Seq<char>>) -> spec_fn(MemoryView) -> bool {
    |m: MemoryView| !keys.contains(m.key)
}

/// The inputs of some memories.
pub open spec fn inputs_of(ms: Seq<MemoryView>) -> Seq<MemoryInputView> {
    ms.map_values(|m: MemoryView| input_of(m))
}

/// What a sync adds to `local` from `remote`: each exported remote memory whose key
/// no exported local memory has, in export order.
pub open spec fn sync_inputs(local: Seq<MemoryView>, remote: Seq<MemoryView>) -> Seq<MemoryInputView> {
    inputs_of(exported(remote).filter(key_absent(keys_of(exported(local)))))
}

/// What a bundle import adds to `store`: every bundled memory, or with `skip` only
/// those whose key no exported memory of the store has.
pub open spec fn bundle_inputs(store: Seq<MemoryView>, bundle: Seq<MemoryView>, skip: bool) -> Seq<MemoryInputView> {
    if skip {
        inputs_of(bundle.filter(key_absent(keys_of(exported(store)))))
    } else {
        inputs_of(bundle)
    }
}

/// The input that recreates a memory's fields.
pub fn input_from(m: &Memory) -> (r: MemoryInput)
    ensures
        r@ == input_of(m@),
{
    MemoryInput {
        kind: m.kind,
        key: m.key.clone(),
        content: m.content.clone(),
        tags: copy_strings(&m.tags),
        related_ids: copy_strings(&m.related_ids),
    }
}

/// The keys of some memories.
fn key_list(ms: &[Memory]) -> (r: Vec<String>)
    ensures
        crate::text::strs(r@) == keys_of(memory_views(ms@)),
{
    let mut r: Vec<String> = Vec::new();
    let mut i: usize = 0;
    while i < ms.len()
        invariant
            i <= ms.len(),
            crate::text::strs(r@) == keys_of(memory_views(ms@)).take(i as int),
        decreases ms.len() - i,
    {
        let ghost prev = crate::text::strs(r@);
        r.push(ms[i].key.clone());
        assert(crate::text::strs(r@) =~= prev.push(ms@[i as int].key@));
        assert(keys_of(memory_views(ms@)).take(i + 1) =~= keys_of(memory_views(ms@)).take(i as int).push(
            ms@[i as int].key@,
        ));
        i = i + 1;
    }
    assert(keys_of(memory_views(ms@)).take(ms.len() as int) =~= keys_of(memory_views(ms@)));
    r
}

/// The inputs of the memories whose key is not in `keys` (of all, when `keep_all`).
fn inputs_without_keys(ms: &[Memory], keys: &Vec<String>, keep_all: bool) -> (r: Vec<MemoryInput>)
    ensures
        input_views(r@) == if keep_all {
            inputs_of(memory_views(ms@))
        } else {
            inputs_of(memory_views(ms@).filter(key_absent(crate::text::strs(keys@))))
        },
{
    let ghost s = memory_views(ms@);
    let ghost f = key_absent(crate::text::strs(keys@));
    let ghost sel = if keep_all { s } else { s.filter(f) };
    let mut r: Vec<MemoryInput> = Vec::new();
    let mut i: usize = 0;
    let ghost mut picked: Seq<MemoryView> = Seq::empty();
    assert(s.take(0) =~= Seq::<MemoryView>::empty());
    assert(s.take(0).filter(f) =~= Seq::<MemoryView>::empty());
    while i < ms.len()
        invariant
            i <= ms.len(),
            s == memory_views(ms@),
            f == key_absent(crate::text::strs(keys@)),
            picked == if keep_all { s.take(i as int) } else { s.take(i as int).filter(f) },
            input_views(r@) == inputs_of(picked),
        decreases ms.len() - i,
    {
        assert(s.take(i + 1).drop_last() =~= s.take(i as int));
        assert(s.take(i + 1).last() == ms@[i as int]@);
        reveal_with_fuel(Seq::filter, 1);
        let absent = !contains_str(keys.as_slice(), ms[i].key.as_str());
        if keep_all || absent {
            let ghost prev = input_views(r@);
            let inp = input_from(&ms[i]);
            r.push(inp);
            proof {
                picked = picked.push(ms@[i as int]@);
            }
            assert(input_views(r@) =~= prev.push(inp@));
            assert(inputs_of(picked) =~= inputs_of(picked.drop_last()).push(input_of(ms@[i as int]@)));
        }
        assert(picked == if keep_all { s.take(i + 1) } else { s.take(i + 1).filter(f) });
        i = i + 1;
    }
    assert(s.take(ms.len() as int) =~= s);
    r
}

/// Whether a sync direction copies from the remote store into the local one: every
/// direction but `push`.
pub open spec fn pulls(direction: Seq<char>) -> bool {
    direction != "push"@
}

/// Whether a sync direction copies from the local store into the remote one: every
/// direction but `pull`.
pub open spec fn pushes(direction: Seq<char>) -> bool {
    direction != "pull"@
}

/// How a refused add leaves things: the error names a full log or an id the store
/// had.
pub open spec fn refusal(e: StoreError, ms: Seq<MemoryView>, log_len: nat) -> bool {
    &&& (e is DuplicateId || e is LogFull)
    &&& (e is LogFull ==> log_len >= i64::MAX)
    &&& (e matches StoreError::DuplicateId(d) ==> crate::store::has_id(ms, d@))
}

/// Adds to `dst` each memory that `src` exports whose key no memory that `dst`
/// exports has, with a fresh id and the current time, in export order; how many.
/// It stops at the first refusal, keeping what was added before it.
fn pull_into(dst: &mut MemoryStore, src: &MemoryStore) -> (r: Result<usize, StoreError>)
    requires
        old(dst).wf(),
    ensures
        final(dst).wf(),
        final(dst).links() == old(dst).links(),
        added_from(old(dst).memories(), final(dst).memories(), sync_inputs(old(dst).memories(), src.memories())),
        match r {
            Ok(n) => {
                &&& n == sync_inputs(old(dst).memories(), src.memories()).len()
                &&& final(dst).memories().len() == old(dst).memories().len() + n
            },
            Err(e) => {
                &&& final(dst).memories().len() < old(dst).memories().len() + sync_inputs(
                    old(dst).memories(),
                    src.memories(),
                ).len()
                &&& refusal(e, final(dst).memories(), final(dst).audit_log().len())
            },
        },
{
    let src_all = match src.export_json() {
        Ok(v) => v,
        Err(e) => {
            proof {
                assert(false);
            }
            return Err(e);
        },
    };
    let dst_all = match dst.export_json() {
        Ok(v) => v,
        Err(e) => {
            proof {
                assert(false);
            }
            return Err(e);
        },
    };
    let keys = key_list(dst_all.as_slice());
    let inputs = inputs_without_keys(src_all.as_slice(), &keys, false);
    assert(input_views(inputs@) == sync_inputs(old(dst).memories(), src.memories()));
    dst.import_memories(inputs)
}

/// Syncs two stores in a direction: `pull` adds to `local` each memory of `remote`
/// whose key `local` lacks; `push` adds to `remote` each memory of `local` whose key
/// `remote` lacks; any other direction (`both`) pulls, then pushes. Each add gets a
/// fresh id and the current time. It stops at the first refusal, keeping what was
/// added before it. Returns how many memories were copied either way.
pub fn sync_memories(local: &mut MemoryStore, remote: &mut MemoryStore, direction: &str) -> (r: Result<SyncState, StoreError>)
    requires
        old(local).wf(),
        old(remote).wf(),
    ensures
        final(local).wf(),
        final(remote).wf(),
        final(local).links() == old(local).links(),
        final(remote).links() == old(remote).links(),
        !pulls(direction@) ==> final(local).memories() == old(local).memories(),
        pulls(direction@) ==> added_from(
            old(local).memories(),
            final(local).memories(),
            sync_inputs(old(local).memories(), old(remote).memories()),
        ),
        !pushes(direction@) || (pulls(direction@) && r is Err && final(local).memories().len()
            < old(local).memories().len() + sync_inputs(old(local).memories(), old(remote).memories()).len())
            ==> final(remote).memories() == old(remote).memories(),
        pushes(direction@) ==> added_from(
            old(remote).memories(),
            final(remote).memories(),
            sync_inputs(old(remote).memories(), final(local).memories()),
        ),
        match r {
            Ok(st) => {
                &&& st.conflicts@.len() == 0
                &&& pulls(direction@) ==> final(local).memories().len() == old(local).memories().len()
                    + sync_inputs(old(local).memories(), old(remote).memories()).len()
                &&& pushes(direction@) ==> final(remote).memories().len() == old(remote).memories().len()
                    + sync_inputs(old(remote).memories(), final(local).memories()).len()
                &&& st.memories_synced == (final(local).memories().len() - old(local).memories().len())
                    + (final(remote).memories().len() - old(remote).memories().len())
            },
            Err(e) => refusal(e, final(local).memories(), final(local).audit_log().len())
                || refusal(e, final(remote).memories(), final(remote).audit_log().len()),
        },
{
    let pull = !str_eq(direction, "push");
    let push = !str_eq(direction, "pull");
    let mut pulled: usize = 0;
    if pull {
        match pull_into(local, remote) {
            Ok(n) => {
                pulled = n;
            },
            Err(e) => {
                assert(remote.memories().take(remote.memories().len() as int) =~= remote.memories());
                return Err(e);
            },
        }
    }
    let mut pushed: usize = 0;
    assert(remote.memories().take(remote.memories().len() as int) =~= remote.memories());
    if push {
        match pull_into(remote, local) {
            Ok(n) => {
                pushed = n;
            },
            Err(e) => {
                return Err(e);
            },
        }
    }
    proof {
        if !pull {
            assert(local.memories() == old(local).memories());
        }
        if !push {
            assert(remote.memories() == old(remote).memories());
        }
    }
    assert(pulled + pushed <= usize::MAX) by {
        assert(pulled as int == local.memories().len() - old(local).memories().len());
        assert(pushed as int == remote.memories().len() - old(remote).memories().len());
        // A store's memories are a vector of at most usize::MAX memories.
        lemma_store_len_bound(local);
        lemma_store_len_bound(remote);
    }
    Ok(SyncState { memories_synced: pulled + pushed, conflicts: Vec::new() })
}

/// Each key of `ms` is the key of some memory of `after`.
pub open spec fn keys_covered(ms: Seq<MemoryView>, after: Seq<MemoryView>) -> bool {
    forall|i: int| 0 <= i < ms.len() ==> keys_of(after).contains(#[trigger] ms[i].key)
}

/// A store of at most a million memories exports each of them.
proof fn lemma_exported_all(s: Seq<MemoryView>)
    requires
        s.len() <= 1000000,
    ensures
        exported(s).len() == s.len(),
        forall|x: MemoryView| exported(s).contains(x) <==> s.contains(x),
{
    broadcast use vstd::seq_lib::group_to_multiset_ensures;
    crate::store::law_recent_first_orders(s);
    let r = recent_first(s);
    assert(r.to_multiset().len() == s.to_multiset().len());
    assert(exported(s) == r);
    assert forall|x: MemoryView| r.contains(x) <==> s.contains(x) by {
        assert(r.to_multiset().count(x) == s.to_multiset().count(x));
    }
}

/// A pull that went through leaves the receiving store with every key it had and
/// every key of the store it pulled from.
proof fn lemma_pull_covers(before: Seq<MemoryView>, src: Seq<MemoryView>, after: Seq<MemoryView>)
    requires
        before.len() <= 1000000,
        src.len() <= 1000000,
        added_from(before, after, sync_inputs(before, src)),
        after.len() == before.len() + sync_inputs(before, src).len(),
    ensures
        keys_covered(before, after),
        keys_covered(src, after),
        after.len() <= before.len() + src.len(),
{
    let ins = sync_inputs(before, src);
    let e = exported(before);
    let keys = keys_of(e);
    let es = exported(src);
    let f = key_absent(keys);
    let fl = es.filter(f);
    lemma_exported_all(before);
    lemma_exported_all(src);
    es.lemma_filter_len(f);
    assert forall|i: int| 0 <= i < before.len() implies keys_of(after).contains(#[trigger] before[i].key) by {
        assert(after.take(before.len() as int)[i] == after[i]);
        assert(keys_of(after)[i] == before[i].key);
    }
    assert forall|i: int| 0 <= i < src.len() implies keys_of(after).contains(#[trigger] src[i].key) by {
        let k = src[i].key;
        if keys.contains(k) {
            let j = choose|j: int| 0 <= j < keys.len() && keys[j] == k;
            assert(e.contains(e[j]));
            assert(before.contains(e[j]));
            let t = choose|t: int| 0 <= t < before.len() && before[t] == e[j];
            assert(after.take(before.len() as int)[t] == after[t]);
            assert(keys_of(after)[t] == k);
        } else {
            assert(src.contains(src[i]));
            assert(es.contains(src[i]));
            let p = choose|p: int| 0 <= p < es.len() && es[p] == src[i];
            es.lemma_filter_contains(f, p);
            let q = choose|q: int| 0 <= q < fl.len() && fl[q] == src[i];
            assert(ins[q] == input_of(fl[q]));
            assert(is_made_from(after[before.len() + q], ins[q]));
            assert(keys_of(after)[before.len() + q] == k);
        }
    }
}

/// A sync in both directions that went through leaves each store with every key that
/// either store had (for stores that export all their memories, a million together).
pub proof fn law_sync_both_covers_union(
    local: Seq<MemoryView>,
    remote: Seq<MemoryView>,
    local_after: Seq<MemoryView>,
    remote_after: Seq<MemoryView>,
)
    requires
        local.len() + remote.len() <= 1000000,
        added_from(local, local_after, sync_inputs(local, remote)),
        local_after.len() == local.len() + sync_inputs(local, remote).len(),
        added_from(remote, remote_after, sync_inputs(remote, local_after)),
        remote_after.len() == remote.len() + sync_inputs(remote, local_after).len(),
    ensures
        keys_covered(local, local_after),
        keys_covered(remote, local_after),
        keys_covered(local, remote_after),
        keys_covered(remote, remote_after),
{
    lemma_pull_covers(local, remote, local_after);
    lemma_pull_covers(remote, local_after, remote_after);
    assert forall|i: int| 0 <= i < local.len() implies keys_of(remote_after).contains(#[trigger] local[i].key) by {
        let j = choose|j: int| 0 <= j < keys_of(local_after).len() && keys_of(local_after)[j] == local[i].key;
        assert(keys_of(remote_after).contains(local_after[j].key));
    }
}

/// The memories of a store fit a vector.
proof fn lemma_store_len_bound(s: &MemoryStore)
    ensures
        s.memories().len() <= usize::MAX,
{
    s.lemma_len_bound();
}

/// Adds the memories of a bundle to `store`, each with a fresh id and the current
/// time, in bundle order. With the strategy `skip`, those whose key the store
/// already has are left out; with `overwrite`, the stored memories whose key a
/// bundled memory has are deleted first (with the link pairs that touch them), so
/// the bundle's replace them; any other strategy adds every one. How many were
/// added. It stops at the first refusal, keeping what was added before it.
pub fn import_bundle(store: &mut MemoryStore, bundle: &[Memory], strategy: &str) -> (r: Result<usize, StoreError>)
    requires
        old(store).wf(),
    ensures
        final(store).wf(),
        ({
            let kept = if strategy@ == "overwrite"@ {
                crate::store::without_keys(old(store).memories(), keys_of(memory_views(bundle@)))
            } else {
                old(store).memories()
            };
            let inputs = bundle_inputs(old(store).memories(), memory_views(bundle@), strategy@ == "skip"@);
            &&& strategy@ == "overwrite"@ ==> final(store).links() == crate::store::links_without_all(
                old(store).links(),
                crate::store::ids_with_keys(old(store).memories(), keys_of(memory_views(bundle@))),
            )
            &&& strategy@ != "overwrite"@ ==> final(store).links() == old(store).links()
            &&& added_from(kept, final(store).memories(), inputs)
            &&& match r {
                Ok(n) => n == inputs.len() && final(store).memories().len() == kept.len() + n,
                Err(e) => final(store).memories().len() < kept.len() + inputs.len()
                    && refusal(e, final(store).memories(), final(store).audit_log().len()),
            }
        }),
{
    let existing = match store.export_json() {
        Ok(v) => v,
        Err(e) => {
            proof {
                assert(false);
            }
            return Err(e);
        },
    };
    let keys = key_list(existing.as_slice());
    let skip = str_eq(strategy, "skip");
    let inputs = inputs_without_keys(bundle, &keys, !skip);
    assert(input_views(inputs@) == bundle_inputs(old(store).memories(), memory_views(bundle@), skip));
    if str_eq(strategy, "overwrite") {
        let bundle_keys = key_list(bundle);
        let _ = store.delete_with_keys(bundle_keys.as_slice());
    }
    store.import_memories(inputs)
}

} // verus!
