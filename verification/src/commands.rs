//! Rules behind command-line commands: the default tags of a new memory, the quick
//! validation, bringing in another project's memories, and memory groups.

use vstd::prelude::*;
use crate::text::{strs, trim, trim_str, has_prefix, str_eq, str_starts_with, contains_str, owned, append_str};
use crate::types::{Memory, MemoryView, MemoryKind, MemoryInput, MemoryInputView, memory_views};
use crate::store::{MemoryStore, has_id};
use crate::duplicates::add_new;
use crate::sync::{input_from, input_of, exported};

verus! {

// ---------------------------------------------------------------------------
// Default tags
// ---------------------------------------------------------------------------

/// The tags of a new memory with the project's default tags added: each default not
/// there yet is appended, in order.
pub fn with_default_tags(tags: Vec<String>, defaults: &Vec<String>) -> (r: Vec<String>)
    ensures
        strs(r@) == add_new(strs(tags@), strs(defaults@), Seq::empty()),
{
    let mut r = tags;
    let ghost start = strs(r@);
    let mut i: usize = 0;
    while i < defaults.len()
        invariant
            i <= defaults.len(),
            strs(r@) == add_new(start, strs(defaults@).take(i as int), Seq::empty()),
        decreases defaults.len() - i,
    {
        assert(strs(defaults@).take(i + 1).drop_last() =~= strs(defaults@).take(i as int));
        assert(strs(defaults@).take(i + 1).last() == defaults@[i as int]@);
        let ghost prev = strs(r@);
        if !contains_str(r.as_slice(), defaults[i].as_str()) {
            r.push(defaults[i].clone());
            assert(strs(r@) =~= prev.push(defaults@[i as int]@));
        }
        i = i + 1;
    }
    assert(strs(defaults@).take(defaults.len() as int) =~= strs(defaults@));
    r
}

// ---------------------------------------------------------------------------
// Quick validation
// ---------------------------------------------------------------------------

/// The UTF-8 length of a text.
pub open spec fn bytes_of(s: Seq<char>) -> nat {
    vstd::utf8::encode_utf8(s).len()
}

/// One report per related id that names no stored memory, among the first `k`.
pub open spec fn broken_refs(rids: Seq<Seq<char>>, ms: Seq<MemoryView>, k: int) -> Seq<Seq<char>>
    decreases k,
{
    if k <= 0 || k > rids.len() {
        Seq::empty()
    } else {
        broken_refs(rids, ms, k - 1) + if has_id(ms, rids[k - 1]) {
            Seq::empty()
        } else {
            seq!["broken related_id reference"@]
        }
    }
}

/// The problems of one memory, in the order they are checked: empty content, very
/// short content (under ten bytes but not blank), repeated tags, a key over fifty
/// bytes, and each related id that names no stored memory.
pub open spec fn quick_issues(m: MemoryView, ms: Seq<MemoryView>) -> Seq<Seq<char>> {
    (if trim(m.content).len() == 0 { seq!["empty content"@] } else { Seq::empty() }) + (if bytes_of(m.content)
        < 10 && trim(m.content).len() > 0 {
        seq!["very short content (< 10 chars)"@]
    } else {
        Seq::empty()
    }) + (if !m.tags.no_duplicates() { seq!["duplicate tags"@] } else { Seq::empty() }) + (if bytes_of(m.key)
        > 50 {
        seq!["key is very long (> 50 chars)"@]
    } else {
        Seq::empty()
    }) + broken_refs(m.related_ids, ms, m.related_ids.len() as int)
}

/// Whether a list of strings repeats one.
fn has_repeat(v: &Vec<String>) -> (r: bool)
    ensures
        r == !strs(v@).no_duplicates(),
{
    let mut i: usize = 0;
    while i < v.len()
        invariant
            i <= v.len(),
            forall|a: int, b: int| 0 <= a < i && 0 <= b < v.len() && a != b ==> strs(v@)[a] != strs(v@)[b],
        decreases v.len() - i,
    {
        let mut j: usize = 0;
        while j < v.len()
            invariant
                i < v.len(),
                j <= v.len(),
                forall|a: int, b: int| 0 <= a < i && 0 <= b < v.len() && a != b ==> strs(v@)[a] != strs(v@)[b],
                forall|b: int| 0 <= b < j && b != i ==> strs(v@)[i as int] != strs(v@)[b],
            decreases v.len() - j,
        {
            if j != i && str_eq(v[i].as_str(), v[j].as_str()) {
                assert(strs(v@)[i as int] == strs(v@)[j as int]);
                return true;
            }
            j = j + 1;
        }
        i = i + 1;
    }
    false
}

/// The problems of one memory of a store.
pub fn memory_issues(store: &MemoryStore, m: &Memory) -> (r: Vec<String>)
    requires
        store.wf(),
    ensures
        strs(r@) == quick_issues(m@, store.memories()),
{
    let mut r: Vec<String> = Vec::new();
    let t = trim_str(m.content.as_str());
    if t.as_str().is_empty() {
        r.push(owned("empty content"));
    }
    if m.content.as_str().as_bytes().len() < 10 && !t.as_str().is_empty() {
        r.push(owned("very short content (< 10 chars)"));
    }
    if has_repeat(&m.tags) {
        r.push(owned("duplicate tags"));
    }
    if m.key.as_str().as_bytes().len() > 50 {
        r.push(owned("key is very long (> 50 chars)"));
    }
    let ghost head = strs(r@);
    let ghost rids = strs(m.related_ids@);
    let mut i: usize = 0;
    while i < m.related_ids.len()
        invariant
            i <= m.related_ids.len(),
            store.wf(),
            rids == strs(m.related_ids@),
            strs(r@) == head + broken_refs(rids, store.memories(), i as int),
        decreases m.related_ids.len() - i,
    {
        let ghost prev = strs(r@);
        match store.get(m.related_ids[i].as_str()) {
            Ok(Some(_)) => {
                assert(has_id(store.memories(), rids[i as int]));
            },
            _ => {
                r.push(owned("broken related_id reference"));
                assert(strs(r@) =~= prev + seq!["broken related_id reference"@]);
            },
        }
        i = i + 1;
    }
    assert(strs(r@) =~= quick_issues(m@, store.memories()));
    r
}

// ---------------------------------------------------------------------------
// Bringing in another project
// ---------------------------------------------------------------------------

/// How many of the first `k` memories of `other` a merge leaves out: with the `skip`
/// strategy, those whose key `keys` has; none otherwise.
pub open spec fn merge_skipped(other: Seq<MemoryView>, keys: Seq<Seq<char>>, skip: bool, k: int) -> nat
    decreases k,
{
    if k <= 0 || k > other.len() {
        0
    } else {
        merge_skipped(other, keys, skip, k - 1) + if skip && keys.contains(other[k - 1].key) { 1nat } else { 0nat }
    }
}

/// Whether a merge takes the `k`-th memory of `other` in: always, but under the
/// `skip` strategy when its key is among `keys`.
pub open spec fn merge_takes(other: Seq<MemoryView>, keys: Seq<Seq<char>>, skip: bool, k: int) -> bool {
    !(skip && keys.contains(other[k].key))
}

/// Whether memory `m` carries the input (kind, key, content, tags, links) of one of
/// the first `n` memories of `other` that a merge takes in.
pub open spec fn carried_from(other: Seq<MemoryView>, keys: Seq<Seq<char>>, skip: bool, n: int, m: MemoryView) -> bool {
    exists|k: int| 0 <= k < n && #[trigger] merge_takes(other, keys, skip, k) && input_of(m) == input_of(other[k])
}

proof fn lemma_carried_grows(other: Seq<MemoryView>, keys: Seq<Seq<char>>, skip: bool, n: int, m: MemoryView)
    requires
        carried_from(other, keys, skip, n, m),
    ensures
        carried_from(other, keys, skip, n + 1, m),
{
    let k = choose|k: int| 0 <= k < n && #[trigger] merge_takes(other, keys, skip, k) && input_of(m) == input_of(other[k]);
    assert(merge_takes(other, keys, skip, k));
}

/// Brings the memories of another project into `store`, in the order the other
/// store exports them: with `skip`, those whose key the store had are left out;
/// with `overwrite`, the store's first memory (in export order) with that key is
/// deleted before adding; otherwise every one is added. Each add gets a fresh id;
/// a refused add is passed over. Returns how many were added and how many skipped.
/// Afterwards every memory of the store is one it had or carries the input of a
/// memory of `other` that was taken in; unless overwriting, the memories it had
/// stay first and in place.
pub fn merge_projects(store: &mut MemoryStore, other: &MemoryStore, strategy: &str) -> (r: (usize, usize))
    requires
        old(store).wf(),
    ensures
        final(store).wf(),
        r.1 == merge_skipped(
            exported(other.memories()),
            crate::sync::keys_of(exported(old(store).memories())),
            strategy@ == "skip"@,
            exported(other.memories()).len() as int,
        ),
        r.0 + r.1 == exported(other.memories()).len(),
        final(store).memories().len() <= old(store).memories().len() + r.0,
        forall|j: int| 0 <= j < final(store).memories().len() ==>
            old(store).memories().contains(#[trigger] final(store).memories()[j])
            || carried_from(
                exported(other.memories()),
                crate::sync::keys_of(exported(old(store).memories())),
                strategy@ == "skip"@,
                exported(other.memories()).len() as int,
                final(store).memories()[j],
            ),
        strategy@ != "overwrite"@ ==> old(store).memories().len() <= final(store).memories().len()
            && final(store).memories().take(old(store).memories().len() as int) == old(store).memories(),
{
    let others = match other.export_json() {
        Ok(v) => v,
        Err(_) => Vec::new(),
    };
    let current = match store.export_json() {
        Ok(v) => v,
        Err(_) => Vec::new(),
    };
    let ghost ov = memory_views(others@);
    let ghost keys = crate::sync::keys_of(memory_views(current@));
    let ghost before = store.memories();
    let mut keys_v: Vec<String> = Vec::new();
    let mut i: usize = 0;
    while i < current.len()
        invariant
            i <= current.len(),
            keys == crate::sync::keys_of(memory_views(current@)),
            strs(keys_v@) == keys.take(i as int),
        decreases current.len() - i,
    {
        let ghost prev = strs(keys_v@);
        keys_v.push(current[i].key.clone());
        assert(strs(keys_v@) =~= prev.push(keys[i as int]));
        assert(keys.take(i + 1) =~= keys.take(i as int).push(keys[i as int]));
        i = i + 1;
    }
    assert(keys.take(current.len() as int) =~= keys);
    let skip = str_eq(strategy, "skip");
    let overwrite = str_eq(strategy, "overwrite");
    let mut added: usize = 0;
    let mut skipped: usize = 0;
    let mut k: usize = 0;
    while k < others.len()
        invariant
            k <= others.len(),
            store.wf(),
            ov == memory_views(others@),
            strs(keys_v@) == keys,
            keys == crate::sync::keys_of(memory_views(current@)),
            skip == (strategy@ == "skip"@),
            overwrite == (strategy@ == "overwrite"@),
            skipped == merge_skipped(ov, keys, skip, k as int),
            added + skipped == k,
            store.memories().len() <= before.len() + added,
            forall|j: int| 0 <= j < store.memories().len() ==>
                before.contains(#[trigger] store.memories()[j])
                || carried_from(ov, keys, skip, k as int, store.memories()[j]),
            !overwrite ==> before.len() <= store.memories().len()
                && store.memories().take(before.len() as int) == before,
        decreases others.len() - k,
    {
        let m = &others[k];
        let exists = contains_str(keys_v.as_slice(), m.key.as_str());
        let ghost mid = store.memories();
        proof {
            assert forall|j: int| 0 <= j < mid.len() implies
                before.contains(#[trigger] mid[j]) || carried_from(ov, keys, skip, k + 1, mid[j]) by {
                if !before.contains(mid[j]) {
                    lemma_carried_grows(ov, keys, skip, k as int, mid[j]);
                }
            }
        }
        if skip && exists {
            skipped = skipped + 1;
        } else {
            assert(merge_takes(ov, keys, skip, k as int));
            if overwrite && exists {
                let mut j: usize = 0;
                while j < current.len()
                    invariant
                        j <= current.len(),
                    decreases current.len() - j,
                {
                    if str_eq(current[j].key.as_str(), m.key.as_str()) {
                        break;
                    }
                    j = j + 1;
                }
                if j < current.len() {
                    let ghost pre = store.memories();
                    let _ = store.delete(current[j].id.as_str());
                    proof {
                        let post = store.memories();
                        assert forall|a: int| 0 <= a < post.len() implies
                            before.contains(#[trigger] post[a]) || carried_from(ov, keys, skip, k + 1, post[a]) by {
                            if post.len() < pre.len() {
                                let i0 = crate::store::id_index(pre, current@[j as int]@.id);
                                if a < i0 {
                                    assert(post[a] == pre[a]);
                                } else {
                                    assert(post[a] == pre[a + 1]);
                                }
                            } else {
                                assert(post[a] == pre[a]);
                            }
                        }
                    }
                }
            }
            let ghost pre = store.memories();
            let res = store.add(input_from(m));
            proof {
                let post = store.memories();
                if res is Ok {
                    let nm = post[post.len() - 1];
                    assert(input_of(nm) == input_of(ov[k as int]));
                    assert(carried_from(ov, keys, skip, k + 1, nm));
                    assert forall|a: int| 0 <= a < post.len() implies
                        before.contains(#[trigger] post[a]) || carried_from(ov, keys, skip, k + 1, post[a]) by {
                        if a < pre.len() {
                            assert(post[a] == pre[a]);
                        }
                    }
                    if !overwrite {
                        assert(post.take(before.len() as int) =~= pre.take(before.len() as int));
                    }
                }
            }
            added = added + 1;
        }
        k = k + 1;
    }
    (added, skipped)
}

// ---------------------------------------------------------------------------
// Groups
// ---------------------------------------------------------------------------

/// The key of the memory that stands for a group.
pub open spec fn group_key(name: Seq<char>) -> Seq<char> {
    "group:"@ + name
}

/// A memory stands for a group: it is tagged `group` and its key starts `group:`.
pub open spec fn is_group(m: MemoryView) -> bool {
    m.tags.contains("group"@) && has_prefix(m.key, "group:"@)
}

/// The memory that makes a group.
pub fn group_input(name: &str) -> (r: MemoryInput)
    ensures
        r@ == (MemoryInputView {
            kind: MemoryKind::Context,
            key: group_key(name@),
            content: "Memory group: "@ + name@,
            tags: seq!["group"@],
            related_ids: Seq::empty(),
        }),
{
    let mut key = owned("group:");
    append_str(&mut key, name);
    let mut content = owned("Memory group: ");
    append_str(&mut content, name);
    let tags = vec![owned("group")];
    assert(strs(tags@) =~= seq!["group"@]);
    let r = MemoryInput { kind: MemoryKind::Context, key, content, tags, related_ids: Vec::new() };
    assert(strs(r.related_ids@) =~= Seq::<Seq<char>>::empty());
    r
}

/// Where the group named `name` stands: the first memory tagged `group` whose key
/// is `group:` and the name.
pub fn find_group(memories: &[Memory], name: &str) -> (r: Option<usize>)
    ensures
        match r {
            Some(i) => i < memories.len() && memories@[i as int]@.tags.contains("group"@)
                && memories@[i as int]@.key == group_key(name@) && forall|j: int|
                0 <= j < i ==> !((#[trigger] memories@[j])@.tags.contains("group"@) && memories@[j]@.key
                    == group_key(name@)),
            None => forall|j: int|
                0 <= j < memories.len() ==> !((#[trigger] memories@[j])@.tags.contains("group"@)
                    && memories@[j]@.key == group_key(name@)),
        },
{
    let mut key = owned("group:");
    append_str(&mut key, name);
    let mut i: usize = 0;
    while i < memories.len()
        invariant
            i <= memories.len(),
            key@ == group_key(name@),
            forall|j: int|
                0 <= j < i ==> !((#[trigger] memories@[j])@.tags.contains("group"@) && memories@[j]@.key
                    == group_key(name@)),
        decreases memories.len() - i,
    {
        let m = &memories[i];
        if contains_str(m.tags.as_slice(), "group") && str_eq(m.key.as_str(), key.as_str()) {
            return Some(i);
        }
        i = i + 1;
    }
    None
}

/// The places of the memories that are groups.
pub fn group_places(memories: &[Memory]) -> (r: Vec<usize>)
    ensures
        forall|i: int| 0 <= i < r.len() ==> r@[i] < memories.len() && is_group(memories@[r@[i] as int]@),
        forall|j: int| 0 <= j < memories.len() && is_group(#[trigger] memories@[j]@) ==> r@.contains(j as usize),
        forall|a: int, b: int| 0 <= a < b < r.len() ==> r@[a] < r@[b],
{
    let mut r: Vec<usize> = Vec::new();
    let mut i: usize = 0;
    while i < memories.len()
        invariant
            i <= memories.len(),
            forall|k: int| 0 <= k < r.len() ==> r@[k] < i && is_group(memories@[r@[k] as int]@),
            forall|j: int| 0 <= j < i && is_group(#[trigger] memories@[j]@) ==> r@.contains(j as usize),
            forall|a: int, b: int| 0 <= a < b < r.len() ==> r@[a] < r@[b],
        decreases memories.len() - i,
    {
        let m = &memories[i];
        let ghost prev = r@;
        if contains_str(m.tags.as_slice(), "group") && str_starts_with(m.key.as_str(), "group:") {
            r.push(i);
            assert(r@[r.len() - 1] == i);
        }
        assert forall|j: int| 0 <= j < i + 1 && is_group(#[trigger] memories@[j]@) implies r@.contains(j as usize) by {
            if j < i {
                let w = choose|w: int| 0 <= w < prev.len() && prev[w] == j as usize;
                assert(r@[w] == j as usize);
            } else {
                assert(r@[r.len() - 1] == i);
            }
        }
        i = i + 1;
    }
    r
}

/// The places of the memories related to `group_id`: the members of that group.
pub fn group_members(memories: &[Memory], group_id: &str) -> (r: Vec<usize>)
    ensures
        forall|i: int| 0 <= i < r.len() ==> r@[i] < memories.len() && memories@[r@[i] as int]@.related_ids.contains(group_id@),
        forall|j: int| 0 <= j < memories.len() && (#[trigger] memories@[j])@.related_ids.contains(group_id@) ==> r@.contains(j as usize),
        forall|a: int, b: int| 0 <= a < b < r.len() ==> r@[a] < r@[b],
{
    let mut r: Vec<usize> = Vec::new();
    let mut i: usize = 0;
    while i < memories.len()
        invariant
            i <= memories.len(),
            forall|k: int| 0 <= k < r.len() ==> r@[k] < i && memories@[r@[k] as int]@.related_ids.contains(group_id@),
            forall|j: int| 0 <= j < i && (#[trigger] memories@[j])@.related_ids.contains(group_id@) ==> r@.contains(j as usize),
            forall|a: int, b: int| 0 <= a < b < r.len() ==> r@[a] < r@[b],
        decreases memories.len() - i,
    {
        let ghost prev = r@;
        if contains_str(memories[i].related_ids.as_slice(), group_id) {
            r.push(i);
            assert(r@[r.len() - 1] == i);
        }
        assert forall|j: int| 0 <= j < i + 1 && (#[trigger] memories@[j])@.related_ids.contains(group_id@) implies r@.contains(j as usize) by {
            if j < i {
                let w = choose|w: int| 0 <= w < prev.len() && prev[w] == j as usize;
                assert(r@[w] == j as usize);
            } else {
                assert(r@[r.len() - 1] == i);
            }
        }
        i = i + 1;
    }
    r
}

} // verus!
