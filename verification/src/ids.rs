//! Naming memories on the command line: lists of ids, and ids given by a prefix.

use vstd::prelude::*;
use crate::text::{strs, has_prefix, chars_of, split_char, str_starts_with, owned};
use crate::types::{MemoryView, memory_views};
use crate::store::{MemoryStore, lookup, first_n, recent_first};
use crate::migration::{trimmed_pieces, split_trimmed};

verus! {

/// The ids of a comma-separated list, trimmed, empty ones left out.
pub fn parse_ids(ids_str: &str) -> (r: Vec<String>)
    ensures
        strs(r@) == trimmed_pieces(split_char(ids_str@, ',')),
{
    let cs = chars_of(ids_str);
    split_trimmed(cs.as_slice(), ',')
}

/// `i` is the only place among `ms` whose id starts with `p`.
pub open spec fn only_match(ms: Seq<MemoryView>, p: Seq<char>, i: int) -> bool {
    &&& 0 <= i < ms.len()
    &&& has_prefix(ms[i].id, p)
    &&& forall|j: int| 0 <= j < ms.len() && j != i ==> !has_prefix(#[trigger] ms[j].id, p)
}

/// What an id given on the command line stands for: itself when a memory has it;
/// else the id of the one memory, among the ten thousand most recent, whose id
/// starts with it; else itself.
pub open spec fn resolved(ms: Seq<MemoryView>, id: Seq<char>) -> Seq<char> {
    let recent = first_n(recent_first(ms), 10000);
    if lookup(ms, id) is Some {
        id
    } else if exists|i: int| only_match(recent, id, i) {
        recent[choose|i: int| only_match(recent, id, i)].id
    } else {
        id
    }
}

/// Resolves an id that may be given by a prefix.
pub fn resolve_id(store: &MemoryStore, id: &str) -> (r: String)
    requires
        store.wf(),
    ensures
        r@ == resolved(store.memories(), id@),
{
    match store.get(id) {
        Ok(Some(_)) => {
            return owned(id);
        },
        _ => {},
    }
    let all = match store.list(None, 10000) {
        Ok(v) => v,
        Err(_) => Vec::new(),
    };
    let ghost recent = memory_views(all@);
    let mut found: Option<usize> = None;
    let mut count: usize = 0;
    let mut k: usize = 0;
    while k < all.len()
        invariant
            k <= all.len(),
            recent == memory_views(all@),
            count <= k,
            count == 0 ==> (found is None && forall|j: int| 0 <= j < k ==> !has_prefix(#[trigger] recent[j].id, id@)),
            count == 1 ==> (found matches Some(f) && f < k && has_prefix(recent[f as int].id, id@)
                && forall|j: int| 0 <= j < k && j != f ==> !has_prefix(#[trigger] recent[j].id, id@)),
            count >= 2 ==> (exists|a: int, b: int| 0 <= a < b < k && has_prefix(#[trigger] recent[a].id, id@)
                && has_prefix(#[trigger] recent[b].id, id@)),
        decreases all.len() - k,
    {
        if str_starts_with(all[k].id.as_str(), id) {
            if count == 1 {
                let f = found.unwrap();
                assert(has_prefix(recent[f as int].id, id@) && has_prefix(recent[k as int].id, id@));
            }
            if count < 2 {
                count = count + 1;
            }
            found = Some(k);
        }
        k = k + 1;
    }
    if count == 1 {
        let f = found.unwrap();
        assert(only_match(recent, id@, f as int));
        proof {
            let c = choose|i: int| only_match(recent, id@, i);
            if c != f {
                assert(!has_prefix(recent[c].id, id@));
            }
        }
        all[f].id.clone()
    } else {
        proof {
            if count >= 2 {
                assert forall|i: int| !only_match(recent, id@, i) by {
                    let (a, b) = choose|a: int, b: int| 0 <= a < b < all.len() && has_prefix(#[trigger] recent[a].id, id@)
                        && has_prefix(#[trigger] recent[b].id, id@);
                    if only_match(recent, id@, i) {
                        if i != a {
                            assert(!has_prefix(recent[a].id, id@));
                        } else {
                            assert(!has_prefix(recent[b].id, id@));
                        }
                    }
                }
            }
        }
        owned(id)
    }
}

} // verus!
