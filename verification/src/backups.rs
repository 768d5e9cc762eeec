//! Which backups a cleanup deletes: all but the `keep` newest. Listing and deleting
//! the files is left to the program.

use vstd::prelude::*;
use crate::validation::count_upto;

verus! {

/// Backup `j` comes before backup `i` when listed newest first: it is newer, or as
/// new and listed earlier.
pub open spec fn listed_before(created: Seq<i64>, j: int, i: int) -> bool {
    created[j] > created[i] || (created[j] == created[i] && j < i)
}

/// The place of backup `i` when the backups are listed newest first, ties in the
/// order given.
pub open spec fn newest_rank(created: Seq<i64>, i: int) -> nat {
    count_upto(created.len() as int, |j: int| listed_before(created, j, i))
}

/// The backups (by index, in increasing order) that a cleanup keeping the `keep`
/// newest deletes: those with at least `keep` backups listed before them, newest
/// first with ties in the order given.
pub fn backups_to_delete(created: &[i64], keep: usize) -> (r: Vec<usize>)
    ensures
        forall|a: int, b: int| 0 <= a < b < r.len() ==> r@[a] < r@[b],
        forall|a: int| 0 <= a < r.len() ==> r@[a] < created.len(),
        forall|i: int| 0 <= i < created.len() ==> (r@.contains(i as usize) <==> newest_rank(created@, i) >= keep),
{
    let mut r: Vec<usize> = Vec::new();
    let mut i: usize = 0;
    while i < created.len()
        invariant
            i <= created.len(),
            forall|a: int, b: int| 0 <= a < b < r.len() ==> r@[a] < r@[b],
            forall|a: int| 0 <= a < r.len() ==> r@[a] < i,
            forall|x: int| 0 <= x < i ==> (r@.contains(x as usize) <==> newest_rank(created@, x) >= keep),
        decreases created.len() - i,
    {
        let ghost p = |j: int| listed_before(created@, j, i as int);
        let mut cnt: usize = 0;
        let mut j: usize = 0;
        while j < created.len()
            invariant
                j <= created.len(),
                cnt <= j,
                i < created.len(),
                p == (|j: int| listed_before(created@, j, i as int)),
                cnt == count_upto(j as int, p),
            decreases created.len() - j,
        {
            if created[j] > created[i] || (created[j] == created[i] && j < i) {
                cnt = cnt + 1;
            }
            j = j + 1;
        }
        let ghost before = r@;
        if cnt >= keep {
            r.push(i);
        }
        assert forall|x: int| 0 <= x < i + 1 implies (r@.contains(x as usize) <==> newest_rank(created@, x) >= keep) by {
            if x < i {
                if before.contains(x as usize) {
                    let k = choose|k: int| 0 <= k < before.len() && before[k] == x as usize;
                    assert(r@[k] == x as usize);
                }
                if r@.contains(x as usize) {
                    let k = choose|k: int| 0 <= k < r@.len() && r@[k] == x as usize;
                    if k < before.len() {
                        assert(before[k] == x as usize);
                    }
                }
            } else {
                if cnt >= keep {
                    assert(r@[before.len() as int] == i);
                } else {
                    assert(r@ == before);
                }
            }
        }
        i = i + 1;
    }
    r
}

} // verus!
