//! Quality checks over the stored memories, and the fixes that can be made without
//! asking anyone: duplicate tags, links to itself, links to memories that are gone.

use vstd::prelude::*;
use crate::text::{
    strs, str_eq, contains_str, other_than, within, sorted_distinct, strictly_sorted, strings_without, text_less,
    lemma_text_less_irreflexive, lemma_sorted_unique,
};
use crate::types::{Memory, MemoryView, memory_views};
use crate::text::{trim, decimal, is_blank, chars_of, push_decimal, append_str};

verus! {

/// How many indices below `n` satisfy `p`.
pub open spec fn count_upto(n: int, p: spec_fn(int) -> bool) -> nat
    decreases n,
{
    if n <= 0 {
        0
    } else {
        count_upto(n - 1, p) + if p(n - 1) { 1nat } else { 0nat }
    }
}

/// The ids of the memories, in order.
pub open spec fn known_ids(ms: Seq<MemoryView>) -> Seq<Seq<char>> {
    ms.map_values(|m: MemoryView| m.id)
}

/// Some element of `s` is not among `ids`.
pub open spec fn has_unknown(s: Seq<Seq<char>>, ids: Seq<Seq<char>>) -> bool {
    exists|k: int| 0 <= k < s.len() && !ids.contains(#[trigger] s[k])
}

/// The related ids of `m` without itself, and then without the ids not among `ids`.
pub open spec fn links_fixed(m: MemoryView, ids: Seq<Seq<char>>) -> Seq<Seq<char>> {
    m.related_ids.filter(other_than(m.id)).filter(within(ids))
}

/// The tags `new` are those of `old`, each once, in increasing order.
pub open spec fn tags_fixed(old: Seq<Seq<char>>, new: Seq<Seq<char>>) -> bool {
    &&& strictly_sorted(new)
    &&& forall|x: Seq<char>| new.contains(x) <==> old.contains(x)
}

/// `b` is `a` with other tags and related ids.
pub open spec fn same_but_lists(a: MemoryView, b: MemoryView) -> bool {
    &&& b.id == a.id
    &&& b.kind == a.kind
    &&& b.key == a.key
    &&& b.content == a.content
    &&& b.created_at == a.created_at
    &&& b.updated_at == a.updated_at
}

/// `new` is `old` after the simple fix: each memory's tags sorted without repeats.
pub open spec fn fixed_tags_only(old: Seq<MemoryView>, new: Seq<MemoryView>) -> bool {
    &&& new.len() == old.len()
    &&& forall|i: int| 0 <= i < old.len() ==> {
        &&& same_but_lists(old[i], #[trigger] new[i])
        &&& tags_fixed(old[i].tags, new[i].tags)
        &&& new[i].related_ids == old[i].related_ids
    }
}

/// `new` is `old` after the full fix: tags sorted without repeats, and links to
/// itself and to unknown memories dropped.
pub open spec fn fixed_all(old: Seq<MemoryView>, new: Seq<MemoryView>) -> bool {
    &&& new.len() == old.len()
    &&& forall|i: int| 0 <= i < old.len() ==> {
        &&& same_but_lists(old[i], #[trigger] new[i])
        &&& tags_fixed(old[i].tags, new[i].tags)
        &&& new[i].related_ids == links_fixed(old[i], known_ids(old))
    }
}

/// How many memories have a tag twice.
pub open spec fn dup_tag_count(ms: Seq<MemoryView>) -> nat {
    count_upto(ms.len() as int, |i: int| !ms[i].tags.no_duplicates())
}

/// How many memories name themselves as related.
pub open spec fn self_link_count(ms: Seq<MemoryView>) -> nat {
    count_upto(ms.len() as int, |i: int| ms[i].related_ids.contains(ms[i].id))
}

/// How many memories, once their links to themselves are gone, still name an unknown memory.
pub open spec fn unknown_link_count(ms: Seq<MemoryView>) -> nat {
    count_upto(
        ms.len() as int,
        |i: int| has_unknown(ms[i].related_ids.filter(other_than(ms[i].id)), known_ids(ms)),
    )
}

/// A filter keeps every element exactly when every element passes it.
pub proof fn lemma_filter_keeps_all(s: Seq<Seq<char>>, f: spec_fn(Seq<char>) -> bool)
    ensures
        (s.filter(f).len() == s.len()) <==> (forall|k: int| 0 <= k < s.len() ==> f(#[trigger] s[k])),
        (forall|k: int| 0 <= k < s.len() ==> f(#[trigger] s[k])) ==> s.filter(f) == s,
    decreases s.len(),
{
    reveal_with_fuel(Seq::filter, 1);
    if s.len() > 0 {
        let d = s.drop_last();
        lemma_filter_keeps_all(d, f);
        d.lemma_filter_len(f);
        assert forall|k: int| 0 <= k < d.len() implies d[k] == s[k] by {}
        if !f(s.last()) {
            assert(s.filter(f) == d.filter(f));
        }
        if forall|k: int| 0 <= k < s.len() ==> f(#[trigger] s[k]) {
            assert(forall|k: int| 0 <= k < d.len() ==> f(#[trigger] d[k])) by {
                assert forall|k: int| 0 <= k < d.len() implies f(#[trigger] d[k]) by {
                    assert(d[k] == s[k]);
                }
            }
            assert(s.filter(f) =~= d.filter(f).push(s.last()));
            assert(s =~= d.push(s.last()));
        }
        if s.filter(f).len() == s.len() {
            assert(f(s.last()));
            assert forall|k: int| 0 <= k < s.len() implies f(#[trigger] s[k]) by {
                if k < d.len() {
                    assert(d[k] == s[k]);
                }
            }
        }
    }
}

/// A filter drops what fails it and keeps what passes it.
pub proof fn lemma_filter_member(s: Seq<Seq<char>>, f: spec_fn(Seq<char>) -> bool, x: Seq<char>)
    ensures
        s.filter(f).contains(x) <==> (s.contains(x) && f(x)),
{
    if s.filter(f).contains(x) {
        s.lemma_filter_contains_rev(f, x);
        let i = choose|i: int| 0 <= i < s.filter(f).len() && s.filter(f)[i] == x;
        s.lemma_filter_pred(f, i);
    }
    if s.contains(x) && f(x) {
        let i = choose|i: int| 0 <= i < s.len() && s[i] == x;
        s.lemma_filter_contains(f, i);
    }
}

/// Sorting without repeats shortens the tags exactly when a tag occurs twice.
pub proof fn lemma_distinct_len(v: Seq<Seq<char>>, r: Seq<Seq<char>>)
    requires
        tags_fixed(v, r),
    ensures
        (r.len() == v.len()) <==> v.no_duplicates(),
{
    assert(r.no_duplicates()) by {
        assert forall|i: int, j: int| 0 <= i < r.len() && 0 <= j < r.len() && i != j implies r[i] != r[j] by {
            if i < j {
                assert(text_less(r[i], r[j]));
                lemma_text_less_irreflexive(r[i]);
            } else {
                assert(text_less(r[j], r[i]));
                lemma_text_less_irreflexive(r[j]);
            }
        }
    }
    assert(r.to_set() =~= v.to_set());
    r.unique_seq_to_set();
    if v.no_duplicates() {
        v.unique_seq_to_set();
    }
    if r.len() == v.len() {
        v.lemma_no_dup_set_cardinality();
    }
}

/// The strings of `v` that are among `ids`, in order (`Vec::retain` with `contains`).
pub fn strings_within(v: &[String], ids: &[String]) -> (r: Vec<String>)
    ensures
        strs(r@) == strs(v@).filter(within(strs(ids@))),
{
    let ghost s = strs(v@);
    let ghost f = within(strs(ids@));
    let mut r: Vec<String> = Vec::new();
    let mut i: usize = 0;
    assert(s.take(0) =~= Seq::<Seq<char>>::empty());
    while i < v.len()
        invariant
            i <= v.len(),
            s == strs(v@),
            f == within(strs(ids@)),
            strs(r@) == s.take(i as int).filter(f),
        decreases v.len() - i,
    {
        assert(s.take(i + 1).drop_last() =~= s.take(i as int));
        assert(s.take(i + 1).last() == v@[i as int]@);
        reveal_with_fuel(Seq::filter, 1);
        if contains_str(ids, v[i].as_str()) {
            let ghost before = strs(r@);
            r.push(v[i].clone());
            assert(strs(r@) =~= before.push(v@[i as int]@));
        }
        i = i + 1;
    }
    assert(s.take(v.len() as int) =~= s);
    r
}

/// Sorts each memory's tags and drops repeated ones; how many memories had a repeat.
pub fn auto_fix(memories: &mut Vec<Memory>) -> (fixed: usize)
    ensures
        fixed_tags_only(memory_views(old(memories)@), memory_views(final(memories)@)),
        fixed == dup_tag_count(memory_views(old(memories)@)),
{
    let ghost ms = memory_views(memories@);
    let mut fixed: usize = 0;
    let mut i: usize = 0;
    while i < memories.len()
        invariant
            ms == memory_views(old(memories)@),
            memories.len() == ms.len(),
            i <= memories.len(),
            fixed <= i,
            fixed == count_upto(i as int, |k: int| !ms[k].tags.no_duplicates()),
            forall|k: int| 0 <= k < i ==> {
                &&& same_but_lists(ms[k], #[trigger] memory_views(memories@)[k])
                &&& tags_fixed(ms[k].tags, memory_views(memories@)[k].tags)
                &&& memory_views(memories@)[k].related_ids == ms[k].related_ids
            },
            forall|k: int| i <= k < memories.len() ==> #[trigger] memory_views(memories@)[k] == ms[k],
        decreases memories.len() - i,
    {
        assert(memory_views(memories@)[i as int] == ms[i as int]);
        let mut m = memories[i].copy();
        assert(m@ == ms[i as int]);
        let before = m.tags.len();
        m.tags = sorted_distinct(m.tags.as_slice());
        proof {
            lemma_distinct_len(ms[i as int].tags, strs(m.tags@));
        }
        if m.tags.len() != before {
            fixed = fixed + 1;
        }
        let ghost views = memory_views(memories@);
        let ghost mv = m@;
        memories.set(i, m);
        assert(memory_views(memories@) =~= views.update(i as int, mv));
        i = i + 1;
    }
    fixed
}

/// The full fix: sorts each memory's tags without repeats, drops links to itself,
/// then drops links to memories that are not in the list. Counts one for each memory
/// and each of the three steps that changed it.
pub fn auto_fix_v2(memories: &mut Vec<Memory>) -> (fixed: usize)
    requires
        old(memories).len() <= usize::MAX / 3,
    ensures
        fixed_all(memory_views(old(memories)@), memory_views(final(memories)@)),
        fixed == dup_tag_count(memory_views(old(memories)@)) + self_link_count(memory_views(old(memories)@))
            + unknown_link_count(memory_views(old(memories)@)),
{
    let ghost ms = memory_views(memories@);
    let n = memories.len();
    let mut ids: Vec<String> = Vec::new();
    let mut j: usize = 0;
    while j < n
        invariant
            ms == memory_views(old(memories)@),
            memories@ == old(memories)@,
            n == memories.len(),
            j <= n,
            strs(ids@) == known_ids(ms).take(j as int),
        decreases n - j,
    {
        let ghost before = strs(ids@);
        ids.push(memories[j].id.clone());
        assert(strs(ids@) =~= before.push(ms[j as int].id));
        assert(known_ids(ms).take(j + 1) =~= known_ids(ms).take(j as int).push(ms[j as int].id));
        j = j + 1;
    }
    assert(known_ids(ms).take(n as int) =~= known_ids(ms));
    let mut a: usize = 0;
    let mut b: usize = 0;
    let mut c: usize = 0;
    let mut i: usize = 0;
    while i < n
        invariant
            ms == memory_views(old(memories)@),
            memories.len() == n,
            n == ms.len(),
            n <= usize::MAX / 3,
            strs(ids@) == known_ids(ms),
            i <= n,
            a <= i,
            b <= i,
            c <= i,
            a == count_upto(i as int, |k: int| !ms[k].tags.no_duplicates()),
            b == count_upto(i as int, |k: int| ms[k].related_ids.contains(ms[k].id)),
            c == count_upto(i as int, |k: int| has_unknown(ms[k].related_ids.filter(other_than(ms[k].id)), known_ids(ms))),
            forall|k: int| 0 <= k < i ==> {
                &&& same_but_lists(ms[k], #[trigger] memory_views(memories@)[k])
                &&& tags_fixed(ms[k].tags, memory_views(memories@)[k].tags)
                &&& memory_views(memories@)[k].related_ids == links_fixed(ms[k], known_ids(ms))
            },
            forall|k: int| i <= k < n ==> #[trigger] memory_views(memories@)[k] == ms[k],
        decreases n - i,
    {
        assert(memory_views(memories@)[i as int] == ms[i as int]);
        let mut m = memories[i].copy();
        assert(m@ == ms[i as int]);
        let ghost mv = ms[i as int];
        let len0 = m.tags.len();
        m.tags = sorted_distinct(m.tags.as_slice());
        proof {
            lemma_distinct_len(mv.tags, strs(m.tags@));
        }
        if m.tags.len() != len0 {
            a = a + 1;
        }
        let len1 = m.related_ids.len();
        let no_self = strings_without(m.related_ids.as_slice(), m.id.as_str());
        proof {
            lemma_filter_keeps_all(mv.related_ids, other_than(mv.id));
            if mv.related_ids.contains(mv.id) {
                let k = choose|k: int| 0 <= k < mv.related_ids.len() && mv.related_ids[k] == mv.id;
                assert(!other_than(mv.id)(mv.related_ids[k]));
            }
        }
        if no_self.len() != len1 {
            b = b + 1;
        }
        let len2 = no_self.len();
        let known = strings_within(no_self.as_slice(), ids.as_slice());
        proof {
            lemma_filter_keeps_all(strs(no_self@), within(known_ids(ms)));
        }
        if known.len() != len2 {
            c = c + 1;
        }
        m.related_ids = known;
        assert(strs(m.related_ids@) == links_fixed(mv, known_ids(ms)));
        let ghost views = memory_views(memories@);
        let ghost nv = m@;
        memories.set(i, m);
        assert(memory_views(memories@) =~= views.update(i as int, nv));
        i = i + 1;
    }
    a + b + c
}

/// Fixing twice changes nothing the second time: once fixed, memories have no repeated
/// tag, no link to themselves and no link to an unknown memory, and a second fix
/// leaves every memory as it is and counts nothing.
pub proof fn law_fix_is_idempotent(ms: Seq<MemoryView>, once: Seq<MemoryView>, twice: Seq<MemoryView>)
    requires
        fixed_all(ms, once),
        fixed_all(once, twice),
    ensures
        twice == once,
        dup_tag_count(once) + self_link_count(once) + unknown_link_count(once) == 0,
{
    assert(known_ids(once) =~= known_ids(ms)) by {
        assert forall|i: int| 0 <= i < ms.len() implies known_ids(once)[i] == known_ids(ms)[i] by {
            assert(same_but_lists(ms[i], once[i]));
        }
    }
    assert forall|i: int| 0 <= i < once.len() implies twice[i] == once[i] && once[i].tags.no_duplicates()
        && !once[i].related_ids.contains(once[i].id)
        && !has_unknown(once[i].related_ids.filter(other_than(once[i].id)), known_ids(once)) by {
        let m = ms[i];
        let o = once[i];
        let t = twice[i];
        assert(same_but_lists(m, o));
        assert(same_but_lists(o, t));
        lemma_sorted_unique(o.tags, t.tags);
        lemma_distinct_len(o.tags, t.tags);
        let ids = known_ids(ms);
        let f1 = other_than(m.id);
        let f2 = within(ids);
        let mid = m.related_ids.filter(f1);
        assert(o.related_ids == mid.filter(f2));
        assert forall|k: int| 0 <= k < o.related_ids.len() implies (o.related_ids[k] != o.id
            && ids.contains(#[trigger] o.related_ids[k])) by {
            let x = o.related_ids[k];
            assert(o.related_ids.contains(x));
            lemma_filter_member(mid, f2, x);
            lemma_filter_member(m.related_ids, f1, x);
        }
        let g1 = other_than(o.id);
        let g2 = within(known_ids(once));
        lemma_filter_keeps_all(o.related_ids, g1);
        assert(o.related_ids.filter(g1) == o.related_ids);
        lemma_filter_keeps_all(o.related_ids, g2);
        assert(t.related_ids == o.related_ids.filter(g1).filter(g2));
        assert(t =~= o);
        if o.related_ids.contains(o.id) {
            let k = choose|k: int| 0 <= k < o.related_ids.len() && o.related_ids[k] == o.id;
        }
    }
    assert(twice =~= once);
    lemma_count_none(once.len() as int, |i: int| !once[i].tags.no_duplicates());
    lemma_count_none(once.len() as int, |i: int| once[i].related_ids.contains(once[i].id));
    lemma_count_none(
        once.len() as int,
        |i: int| has_unknown(once[i].related_ids.filter(other_than(once[i].id)), known_ids(once)),
    );
}

/// No broken-link issue arises from a memory whose related ids are all known.
proof fn lemma_broken_of_none(m: MemoryView, ids: Seq<Seq<char>>, n: int)
    requires
        n <= m.related_ids.len(),
        forall|k: int| 0 <= k < m.related_ids.len() ==> ids.contains(#[trigger] m.related_ids[k]),
    ensures
        broken_of(m, ids, n) == Seq::<IssueView>::empty(),
    decreases n,
{
    if n > 0 {
        lemma_broken_of_none(m, ids, n - 1);
        assert(ids.contains(m.related_ids[n - 1]));
        assert(broken_of(m, ids, n) =~= Seq::<IssueView>::empty());
    }
}

/// No broken-link issue arises from memories whose related ids are all known.
proof fn lemma_broken_none(ms: Seq<MemoryView>, n: int)
    requires
        n <= ms.len(),
        forall|i: int, k: int| 0 <= i < ms.len() && 0 <= k < ms[i].related_ids.len()
            ==> known_ids(ms).contains(#[trigger] ms[i].related_ids[k]),
    ensures
        broken_issues(ms, n) == Seq::<IssueView>::empty(),
    decreases n,
{
    if n > 0 {
        lemma_broken_none(ms, n - 1);
        let m = ms[n - 1];
        assert forall|k: int| 0 <= k < m.related_ids.len() implies known_ids(ms).contains(
            #[trigger] m.related_ids[k]) by {
            assert(known_ids(ms).contains(ms[n - 1].related_ids[k]));
        }
        lemma_broken_of_none(m, known_ids(ms), m.related_ids.len() as int);
        assert(broken_issues(ms, n) =~= Seq::<IssueView>::empty());
    }
}

/// After the full fix, a validation finds no tag issue and no link issue: no memory
/// repeats a tag, names itself, or names a memory that does not exist.
pub proof fn law_fixed_has_no_tag_or_link_issue(ms: Seq<MemoryView>, once: Seq<MemoryView>, now: i64)
    requires
        fixed_all(ms, once),
    ensures
        forall|k: int| 0 <= k < validation_issues(once, now).len() ==> {
            &&& (#[trigger] validation_issues(once, now)[k]).category != "tags"@
            &&& validation_issues(once, now)[k].category != "relationships"@
        },
{
    assert(known_ids(once) =~= known_ids(ms)) by {
        assert forall|i: int| 0 <= i < ms.len() implies known_ids(once)[i] == known_ids(ms)[i] by {
            assert(same_but_lists(ms[i], once[i]));
        }
    }
    assert forall|i: int| 0 <= i < once.len() implies once[i].tags.no_duplicates()
        && !once[i].related_ids.contains(once[i].id)
        && (forall|k: int| 0 <= k < once[i].related_ids.len()
            ==> known_ids(once).contains(#[trigger] once[i].related_ids[k])) by {
        let m = ms[i];
        let o = once[i];
        assert(same_but_lists(m, o));
        assert(tags_fixed(m.tags, o.tags));
        lemma_distinct_len(o.tags, o.tags);
        let ids = known_ids(ms);
        let f1 = other_than(m.id);
        let f2 = within(ids);
        let mid = m.related_ids.filter(f1);
        assert(o.related_ids == mid.filter(f2));
        assert forall|k: int| 0 <= k < o.related_ids.len() implies (o.related_ids[k] != o.id
            && ids.contains(#[trigger] o.related_ids[k])) by {
            let x = o.related_ids[k];
            assert(o.related_ids.contains(x));
            lemma_filter_member(mid, f2, x);
            lemma_filter_member(m.related_ids, f1, x);
        }
        if o.related_ids.contains(o.id) {
            let k = choose|k: int| 0 <= k < o.related_ids.len() && o.related_ids[k] == o.id;
        }
    }
    lemma_count_none(once.len() as int, |i: int| !once[i].tags.no_duplicates());
    lemma_count_none(once.len() as int, |i: int| once[i].related_ids.contains(once[i].id));
    assert forall|i: int, k: int| 0 <= i < once.len() && 0 <= k < once[i].related_ids.len()
        implies known_ids(once).contains(#[trigger] once[i].related_ids[k]) by {
    }
    lemma_broken_none(once, once.len() as int);
    reveal_strlit("tags");
    reveal_strlit("relationships");
    reveal_strlit("content");
    reveal_strlit("quality");
    reveal_strlit("freshness");
    reveal_strlit("organization");
    let c1 = one_if(empty_count(once) > 0, overall("error"@, "content"@,
        decimal(empty_count(once)) + " memories have empty content"@, false));
    let c2 = one_if(short_count(once) > 0, overall("warning"@, "content"@,
        decimal(short_count(once)) + " memories have very short content (<10 chars)"@, false));
    let t1 = one_if(repeated_key_count(once) > 0, overall("warning"@, "quality"@,
        decimal(repeated_key_count(once)) + " duplicate keys found"@, false));
    let t2 = one_if(stale_count(once, now) > 0, overall("info"@, "freshness"@,
        decimal(stale_count(once, now)) + " memories haven't been updated in over a year"@, false));
    let t3 = one_if(untagged_count(once) > once.len() / 2, overall("info"@, "organization"@,
        decimal(untagged_count(once)) + " memories have no tags ("@ + decimal(untagged_percent(once))
            + "%)"@, false));
    let all = validation_issues(once, now);
    assert(all =~= c1 + c2 + t1 + t2 + t3);
    assert forall|k: int| 0 <= k < all.len() implies {
        &&& (#[trigger] all[k]).category != "tags"@
        &&& all[k].category != "relationships"@
    } by {
        let a = c1 + c2;
        let b = a + t1;
        let c = b + t2;
        assert("content"@[0] == 'c' && "quality"@[0] == 'q' && "freshness"@[0] == 'f');
        assert("organization"@[0] == 'o' && "tags"@[0] == 't' && "relationships"@[0] == 'r');
        if k < c1.len() {
            assert(all[k] == c1[k]);
        } else if k < a.len() {
            assert(all[k] == c2[k - c1.len()]);
        } else if k < b.len() {
            assert(all[k] == t1[k - a.len()]);
        } else if k < c.len() {
            assert(all[k] == t2[k - b.len()]);
        } else {
            assert(all[k] == t3[k - c.len()]);
        }
    }
}

/// Counting where nothing holds gives zero.
pub proof fn lemma_count_none(n: int, p: spec_fn(int) -> bool)
    requires
        forall|i: int| 0 <= i < n ==> !#[trigger] p(i),
    ensures
        count_upto(n, p) == 0,
    decreases n,
{
    if n > 0 {
        lemma_count_none(n - 1, p);
    }
}


/// One finding of a validation: how grave it is, what it concerns, what it says, the
/// memory it is about (when it is about one) and whether a fix can mend it.
#[derive(Debug, Clone)]
pub struct Issue {
    pub severity: String,
    pub category: String,
    pub message: String,
    pub memory_id: Option<String>,
    pub memory_key: Option<String>,
    pub auto_fixable: bool,
}

/// The plain value of an issue.
pub struct IssueView {
    pub severity: Seq<char>,
    pub category: Seq<char>,
    pub message: Seq<char>,
    pub memory_id: Option<Seq<char>>,
    pub memory_key: Option<Seq<char>>,
    pub auto_fixable: bool,
}

/// The plain value of an optional string.
pub open spec fn opt_view(o: Option<String>) -> Option<Seq<char>> {
    match o {
        Some(s) => Some(s@),
        None => None,
    }
}

impl View for Issue {
    type V = IssueView;

    open spec fn view(&self) -> IssueView {
        IssueView {
            severity: self.severity@,
            category: self.category@,
            message: self.message@,
            memory_id: opt_view(self.memory_id),
            memory_key: opt_view(self.memory_key),
            auto_fixable: self.auto_fixable,
        }
    }
}

/// The plain values of a list of issues.
pub open spec fn issue_views(v: Seq<Issue>) -> Seq<IssueView> {
    v.map_values(|i: Issue| i@)
}

/// The outcome of a validation: a score out of a hundred, the counts by severity, the
/// issues found and what is recommended.
#[derive(Debug, Clone)]
pub struct ValidationReport {
    pub score: u32,
    pub total_issues: usize,
    pub errors: usize,
    pub warnings: usize,
    pub infos: usize,
    pub auto_fixable: usize,
    pub issues: Vec<Issue>,
    pub recommendations: Vec<String>,
}

/// An issue about the memories as a whole.
pub open spec fn overall(severity: Seq<char>, category: Seq<char>, message: Seq<char>, fixable: bool) -> IssueView {
    IssueView { severity, category, message, memory_id: None, memory_key: None, auto_fixable: fixable }
}

/// One item when the condition holds, none otherwise.
pub open spec fn one_if<T>(cond: bool, x: T) -> Seq<T> {
    if cond {
        seq![x]
    } else {
        seq![]
    }
}

/// Microseconds in a day.
pub open spec fn day_micros() -> int {
    86_400_000_000
}

/// Whole days in a span of microseconds, rounded toward zero (`TimeDelta::num_days`).
pub open spec fn whole_days(d: int) -> int {
    if d >= 0 {
        d / day_micros()
    } else {
        -((-d) / day_micros())
    }
}

/// The UTF-8 length of a text in bytes (`str::len`).
pub open spec fn byte_len(s: Seq<char>) -> nat {
    vstd::utf8::encode_utf8(s).len()
}

/// How many memories have blank content.
pub open spec fn empty_count(ms: Seq<MemoryView>) -> nat {
    count_upto(ms.len() as int, |i: int| trim(ms[i].content).len() == 0)
}

/// How many memories have content that is not blank but shorter than ten bytes.
pub open spec fn short_count(ms: Seq<MemoryView>) -> nat {
    count_upto(ms.len() as int, |i: int| byte_len(ms[i].content) < 10 && trim(ms[i].content).len() > 0)
}

/// How many memories were last updated more than a year (365 whole days) before `now`.
pub open spec fn stale_count(ms: Seq<MemoryView>, now: i64) -> nat {
    count_upto(ms.len() as int, |i: int| whole_days(now - ms[i].updated_at) > 365)
}

/// How many memories have no tag.
pub open spec fn untagged_count(ms: Seq<MemoryView>) -> nat {
    count_upto(ms.len() as int, |i: int| ms[i].tags.len() == 0)
}

/// Memory `i` is the first with its key, and another memory shares that key.
pub open spec fn first_of_repeated_key(ms: Seq<MemoryView>, i: int) -> bool {
    &&& forall|j: int| 0 <= j < i ==> ms[j].key != ms[i].key
    &&& exists|j: int| 0 <= j < ms.len() && j != i && ms[j].key == ms[i].key
}

/// How many keys are shared by more than one memory.
pub open spec fn repeated_key_count(ms: Seq<MemoryView>) -> nat {
    count_upto(ms.len() as int, |i: int| first_of_repeated_key(ms, i))
}

/// The issue for one related id that names no memory.
pub open spec fn broken_link_issue(m: MemoryView) -> IssueView {
    IssueView {
        severity: "error"@,
        category: "relationships"@,
        message: "Memory '"@ + m.key + "' has broken related_id"@,
        memory_id: Some(m.id),
        memory_key: Some(m.key),
        auto_fixable: true,
    }
}

/// One issue for each of the first `n` related ids of `m` that is not among `ids`.
pub open spec fn broken_of(m: MemoryView, ids: Seq<Seq<char>>, n: int) -> Seq<IssueView>
    decreases n,
{
    if n <= 0 {
        seq![]
    } else {
        broken_of(m, ids, n - 1) + one_if(!ids.contains(m.related_ids[n - 1]), broken_link_issue(m))
    }
}

/// The broken-link issues of the first `n` memories, in order.
pub open spec fn broken_issues(ms: Seq<MemoryView>, n: int) -> Seq<IssueView>
    decreases n,
{
    if n <= 0 {
        seq![]
    } else {
        broken_issues(ms, n - 1) + broken_of(ms[n - 1], known_ids(ms), ms[n - 1].related_ids.len() as int)
    }
}

/// `num / den` rounded to the nearest whole number, ties to even (as `{:.0}` prints).
pub open spec fn round_half_even(num: nat, den: nat) -> nat {
    let q = num / den;
    let r = num % den;
    if 2 * r > den {
        q + 1
    } else if 2 * r == den && q % 2 == 1 {
        q + 1
    } else {
        q
    }
}

/// The share of untagged memories in whole percent.
pub open spec fn untagged_percent(ms: Seq<MemoryView>) -> nat {
    round_half_even(100 * untagged_count(ms), if ms.len() > 0 { ms.len() } else { 1 })
}

/// The issues about content and tags, found before the links are checked.
pub open spec fn leading_issues(ms: Seq<MemoryView>) -> Seq<IssueView> {
    one_if(empty_count(ms) > 0, overall("error"@, "content"@,
        decimal(empty_count(ms)) + " memories have empty content"@, false))
    + one_if(short_count(ms) > 0, overall("warning"@, "content"@,
        decimal(short_count(ms)) + " memories have very short content (<10 chars)"@, false))
    + one_if(dup_tag_count(ms) > 0, overall("warning"@, "tags"@,
        decimal(dup_tag_count(ms)) + " memories have duplicate tags"@, true))
}

/// The issues about self links, keys, age and tagging, found after the links.
pub open spec fn trailing_issues(ms: Seq<MemoryView>, now: i64) -> Seq<IssueView> {
    one_if(self_link_count(ms) > 0, overall("warning"@, "relationships"@,
        decimal(self_link_count(ms)) + " memories reference themselves"@, true))
    + one_if(repeated_key_count(ms) > 0, overall("warning"@, "quality"@,
        decimal(repeated_key_count(ms)) + " duplicate keys found"@, false))
    + one_if(stale_count(ms, now) > 0, overall("info"@, "freshness"@,
        decimal(stale_count(ms, now)) + " memories haven't been updated in over a year"@, false))
    + one_if(untagged_count(ms) > ms.len() / 2, overall("info"@, "organization"@,
        decimal(untagged_count(ms)) + " memories have no tags ("@ + decimal(untagged_percent(ms)) + "%)"@, false))
}

/// Every issue that a validation finds, in the order they are reported.
pub open spec fn validation_issues(ms: Seq<MemoryView>, now: i64) -> Seq<IssueView> {
    leading_issues(ms) + broken_issues(ms, ms.len() as int) + trailing_issues(ms, now)
}

/// The recommendations that go with the issues found after the links.
pub open spec fn trailing_advice(ms: Seq<MemoryView>, now: i64) -> Seq<Seq<char>> {
    one_if(repeated_key_count(ms) > 0, "Rename duplicate keys for uniqueness"@)
    + one_if(stale_count(ms, now) > 0, "Review old memories for relevance"@)
    + one_if(untagged_count(ms) > ms.len() / 2, "Add tags to memories for better searchability"@)
}

/// The recommendations that go with the issues found.
pub open spec fn validation_advice(ms: Seq<MemoryView>, now: i64) -> Seq<Seq<char>> {
    one_if(empty_count(ms) > 0, "Add content to empty memories or delete them"@) + trailing_advice(ms, now)
}

/// How many issues have the given severity.
pub open spec fn severity_count(issues: Seq<IssueView>, severity: Seq<char>) -> nat {
    issues.filter(|i: IssueView| i.severity == severity).len()
}

/// How many issues a fix can mend.
pub open spec fn fixable_count(issues: Seq<IssueView>) -> nat {
    issues.filter(|i: IssueView| i.auto_fixable).len()
}

/// The score: a hundred for no memories, else a hundred less fifteen per error and
/// three per warning, never below zero.
pub open spec fn validation_score(n: nat, errors: nat, warnings: nat) -> nat {
    if n == 0 {
        100
    } else if 15 * errors + 3 * warnings >= 100 {
        0
    } else {
        (100 - 15 * errors - 3 * warnings) as nat
    }
}


/// An issue about the memories as a whole.
fn overall_issue(severity: &str, category: &str, message: String, fixable: bool) -> (r: Issue)
    ensures
        r@ == overall(severity@, category@, message@, fixable),
{
    Issue {
        severity: severity.to_owned(),
        category: category.to_owned(),
        message,
        memory_id: None,
        memory_key: None,
        auto_fixable: fixable,
    }
}

/// A count followed by a fixed text.
fn counted(n: usize, text: &str) -> (r: String)
    ensures
        r@ == decimal(n as nat) + text@,
{
    let mut r = String::new();
    push_decimal(&mut r, n);
    append_str(&mut r, text);
    assert(Seq::<char>::empty() + decimal(n as nat) =~= decimal(n as nat));
    r
}

/// The counts over the memories that the validation reports.
struct Tally {
    empty: usize,
    short: usize,
    dup_tags: usize,
    self_links: usize,
    stale: usize,
    untagged: usize,
}

/// Counts the memories with each simple flaw.
fn tally(memories: &[Memory], now: i64) -> (t: Tally)
    ensures
        t.empty == empty_count(memory_views(memories@)),
        t.short == short_count(memory_views(memories@)),
        t.dup_tags == dup_tag_count(memory_views(memories@)),
        t.self_links == self_link_count(memory_views(memories@)),
        t.stale == stale_count(memory_views(memories@), now),
        t.untagged == untagged_count(memory_views(memories@)),
        t.untagged <= memories.len(),
{
    let ghost ms = memory_views(memories@);
    let mut t = Tally { empty: 0, short: 0, dup_tags: 0, self_links: 0, stale: 0, untagged: 0 };
    let mut i: usize = 0;
    while i < memories.len()
        invariant
            i <= memories.len(),
            ms == memory_views(memories@),
            t.empty <= i && t.short <= i && t.dup_tags <= i && t.self_links <= i && t.stale <= i && t.untagged <= i,
            t.empty == count_upto(i as int, |k: int| trim(ms[k].content).len() == 0),
            t.short == count_upto(i as int, |k: int| byte_len(ms[k].content) < 10 && trim(ms[k].content).len() > 0),
            t.dup_tags == count_upto(i as int, |k: int| !ms[k].tags.no_duplicates()),
            t.self_links == count_upto(i as int, |k: int| ms[k].related_ids.contains(ms[k].id)),
            t.stale == count_upto(i as int, |k: int| whole_days(now - ms[k].updated_at) > 365),
            t.untagged == count_upto(i as int, |k: int| ms[k].tags.len() == 0),
        decreases memories.len() - i,
    {
        let m = &memories[i];
        assert(m@ == ms[i as int]);
        let cs = chars_of(m.content.as_str());
        let blank = is_blank(cs.as_slice());
        if blank {
            t.empty = t.empty + 1;
        }
        if m.content.as_str().as_bytes().len() < 10 && !blank {
            t.short = t.short + 1;
        }
        let d = sorted_distinct(m.tags.as_slice());
        proof {
            lemma_distinct_len(ms[i as int].tags, strs(d@));
        }
        if d.len() != m.tags.len() {
            t.dup_tags = t.dup_tags + 1;
        }
        if contains_str(m.related_ids.as_slice(), m.id.as_str()) {
            t.self_links = t.self_links + 1;
        }
        let age: i128 = (now as i128) - (m.updated_at as i128);
        let days: i128 = if age >= 0 { age / 86_400_000_000i128 } else { -((-age) / 86_400_000_000i128) };
        if days > 365 {
            t.stale = t.stale + 1;
        }
        if m.tags.len() == 0 {
            t.untagged = t.untagged + 1;
        }
        i = i + 1;
    }
    t
}

/// The broken-link issues of every memory, in order.
fn broken_link_issues(memories: &[Memory], ids: &Vec<String>) -> (r: Vec<Issue>)
    requires
        strs(ids@) == known_ids(memory_views(memories@)),
    ensures
        issue_views(r@) == broken_issues(memory_views(memories@), memories.len() as int),
{
    let ghost ms = memory_views(memories@);
    let mut r: Vec<Issue> = Vec::new();
    let mut i: usize = 0;
    assert(issue_views(r@) =~= Seq::<IssueView>::empty());
    while i < memories.len()
        invariant
            i <= memories.len(),
            ms == memory_views(memories@),
            strs(ids@) == known_ids(ms),
            issue_views(r@) == broken_issues(ms, i as int),
        decreases memories.len() - i,
    {
        let m = &memories[i];
        assert(m@ == ms[i as int]);
        let ghost base = issue_views(r@);
        let mut j: usize = 0;
        assert(base + broken_of(m@, known_ids(ms), 0) =~= base);
        while j < m.related_ids.len()
            invariant
                j <= m.related_ids.len(),
                m@ == ms[i as int],
                strs(ids@) == known_ids(ms),
                issue_views(r@) == base + broken_of(m@, known_ids(ms), j as int),
            decreases m.related_ids.len() - j,
        {
            if !contains_str(ids.as_slice(), m.related_ids[j].as_str()) {
                let mut msg = "Memory '".to_owned();
                append_str(&mut msg, m.key.as_str());
                append_str(&mut msg, "' has broken related_id");
                let issue = Issue {
                    severity: "error".to_owned(),
                    category: "relationships".to_owned(),
                    message: msg,
                    memory_id: Some(m.id.clone()),
                    memory_key: Some(m.key.clone()),
                    auto_fixable: true,
                };
                assert(issue@ == broken_link_issue(m@));
                let ghost before = issue_views(r@);
                r.push(issue);
                assert(issue_views(r@) =~= before.push(broken_link_issue(m@)));
                assert(issue_views(r@) =~= base + broken_of(m@, known_ids(ms), j + 1));
            } else {
                assert(issue_views(r@) =~= base + broken_of(m@, known_ids(ms), j + 1));
            }
            j = j + 1;
        }
        i = i + 1;
    }
    r
}

/// How many keys are shared by more than one memory.
pub(crate) fn repeated_keys(memories: &[Memory]) -> (c: usize)
    ensures
        c == repeated_key_count(memory_views(memories@)),
{
    let ghost ms = memory_views(memories@);
    let mut c: usize = 0;
    let mut i: usize = 0;
    while i < memories.len()
        invariant
            i <= memories.len(),
            ms == memory_views(memories@),
            c <= i,
            c == count_upto(i as int, |k: int| first_of_repeated_key(ms, k)),
        decreases memories.len() - i,
    {
        let key = memories[i].key.as_str();
        let mut earlier = false;
        let mut again = false;
        let mut j: usize = 0;
        while j < memories.len()
            invariant
                j <= memories.len(),
                i < memories.len(),
                ms == memory_views(memories@),
                key@ == ms[i as int].key,
                earlier <==> exists|x: int| 0 <= x < j && x < i && ms[x].key == ms[i as int].key,
                again <==> exists|x: int| 0 <= x < j && x != i && ms[x].key == ms[i as int].key,
            decreases memories.len() - j,
        {
            if j != i && crate::text::str_eq(memories[j].key.as_str(), key) {
                assert(ms[j as int].key == ms[i as int].key);
                again = true;
                if j < i {
                    earlier = true;
                }
            }
            j = j + 1;
        }
        if !earlier && again {
            c = c + 1;
        }
        i = i + 1;
    }
    c
}

/// How many issues have the given severity, and how many can be fixed.
fn severities(issues: &Vec<Issue>, severity: &str) -> (n: usize)
    ensures
        n == severity_count(issue_views(issues@), severity@),
{
    let ghost s = issue_views(issues@);
    let ghost f = |i: IssueView| i.severity == severity@;
    let mut n: usize = 0;
    let mut k: usize = 0;
    assert(s.take(0) =~= Seq::<IssueView>::empty());
    while k < issues.len()
        invariant
            k <= issues.len(),
            s == issue_views(issues@),
            f == (|i: IssueView| i.severity == severity@),
            n == s.take(k as int).filter(f).len(),
            n <= k,
        decreases issues.len() - k,
    {
        assert(s.take(k + 1).drop_last() =~= s.take(k as int));
        assert(s.take(k + 1).last() == issues@[k as int]@);
        reveal_with_fuel(Seq::filter, 1);
        if crate::text::str_eq(issues[k].severity.as_str(), severity) {
            n = n + 1;
        }
        k = k + 1;
    }
    assert(s.take(issues.len() as int) =~= s);
    n
}

/// How many issues a fix can mend.
fn fixables(issues: &Vec<Issue>) -> (n: usize)
    ensures
        n == fixable_count(issue_views(issues@)),
{
    let ghost s = issue_views(issues@);
    let ghost f = |i: IssueView| i.auto_fixable;
    let mut n: usize = 0;
    let mut k: usize = 0;
    assert(s.take(0) =~= Seq::<IssueView>::empty());
    while k < issues.len()
        invariant
            k <= issues.len(),
            s == issue_views(issues@),
            f == (|i: IssueView| i.auto_fixable),
            n == s.take(k as int).filter(f).len(),
            n <= k,
        decreases issues.len() - k,
    {
        assert(s.take(k + 1).drop_last() =~= s.take(k as int));
        assert(s.take(k + 1).last() == issues@[k as int]@);
        reveal_with_fuel(Seq::filter, 1);
        if issues[k].auto_fixable {
            n = n + 1;
        }
        k = k + 1;
    }
    assert(s.take(issues.len() as int) =~= s);
    n
}

/// Appends an issue.
fn push_issue(v: &mut Vec<Issue>, x: Issue)
    ensures
        issue_views(final(v)@) == issue_views(old(v)@).push(x@),
{
    let ghost xv = x@;
    v.push(x);
    assert(issue_views(v@) =~= issue_views(old(v)@).push(xv));
}

/// Appends a string.
fn push_text(v: &mut Vec<String>, x: &str)
    ensures
        strs(final(v)@) == strs(old(v)@).push(x@),
{
    v.push(x.to_owned());
    assert(strs(v@) =~= strs(old(v)@).push(x@));
}

/// The issues about content and tags, and the advice that goes with them.
fn leading(empty: usize, short: usize, dup_tags: usize, Ghost(ms): Ghost<Seq<MemoryView>>) -> (r: (Vec<Issue>, Vec<String>))
    requires
        empty == empty_count(ms),
        short == short_count(ms),
        dup_tags == dup_tag_count(ms),
    ensures
        issue_views(r.0@) == leading_issues(ms),
        strs(r.1@) == one_if(empty_count(ms) > 0, "Add content to empty memories or delete them"@),
{
    let mut issues: Vec<Issue> = Vec::new();
    let mut advice: Vec<String> = Vec::new();
    let ghost w1 = one_if(empty_count(ms) > 0, overall("error"@, "content"@,
        decimal(empty_count(ms)) + " memories have empty content"@, false));
    let ghost w2 = one_if(short_count(ms) > 0, overall("warning"@, "content"@,
        decimal(short_count(ms)) + " memories have very short content (<10 chars)"@, false));
    let ghost w3 = one_if(dup_tag_count(ms) > 0, overall("warning"@, "tags"@,
        decimal(dup_tag_count(ms)) + " memories have duplicate tags"@, true));
    assert(issue_views(issues@) =~= Seq::<IssueView>::empty());
    assert(strs(advice@) =~= Seq::<Seq<char>>::empty());
    if empty > 0 {
        push_issue(&mut issues, overall_issue("error", "content", counted(empty, " memories have empty content"), false));
        push_text(&mut advice, "Add content to empty memories or delete them");
    }
    assert(issue_views(issues@) =~= w1);
    if short > 0 {
        push_issue(&mut issues, overall_issue("warning", "content", counted(short, " memories have very short content (<10 chars)"), false));
    }
    assert(issue_views(issues@) =~= w1 + w2);
    if dup_tags > 0 {
        push_issue(&mut issues, overall_issue("warning", "tags", counted(dup_tags, " memories have duplicate tags"), true));
    }
    assert(issue_views(issues@) =~= w1 + w2 + w3);
    (issues, advice)
}

/// The rounded share of `part` in `whole` (one when empty), in percent.
fn percent_of(part: usize, whole: usize) -> (p: usize)
    requires
        part <= whole,
    ensures
        p == round_half_even(100 * part as nat, if whole > 0 { whole as nat } else { 1 }),
        p <= 100,
{
    let n: u128 = if whole > 0 { whole as u128 } else { 1 };
    let num: u128 = 100 * (part as u128);
    let q = num / n;
    let rem = num % n;
    let pct: u128 = if 2 * rem > n { q + 1 } else if 2 * rem == n && q % 2 == 1 { q + 1 } else { q };
    assert(q <= 100 && (q == 100 ==> rem == 0)) by (nonlinear_arith)
        requires
            part <= n,
            num == 100 * part,
            q == num / n,
            rem == num % n,
            n >= 1,
    {
        assert(q * n + rem == num);
        assert(0 <= rem < n);
        if q > 100 {
            assert(q * n >= 101 * n);
        }
        if q == 100 {
            assert(100 * n + rem == 100 * part);
        }
    };
    pct as usize
}

/// Appends the issues about self links, keys, age and tagging, and their advice.
fn trailing(
    issues: &mut Vec<Issue>,
    advice: &mut Vec<String>,
    self_links: usize,
    dup_keys: usize,
    stale: usize,
    untagged: usize,
    n: usize,
    Ghost(ms): Ghost<Seq<MemoryView>>,
    Ghost(now): Ghost<i64>,
)
    requires
        self_links == self_link_count(ms),
        dup_keys == repeated_key_count(ms),
        stale == stale_count(ms, now),
        untagged == untagged_count(ms),
        untagged <= n,
        n == ms.len(),
    ensures
        issue_views(final(issues)@) == issue_views(old(issues)@) + trailing_issues(ms, now),
        strs(final(advice)@) == strs(old(advice)@) + trailing_advice(ms, now),
{
    let ghost i0 = issue_views(issues@);
    let ghost a0 = strs(advice@);
    let ghost w5 = one_if(self_link_count(ms) > 0, overall("warning"@, "relationships"@,
        decimal(self_link_count(ms)) + " memories reference themselves"@, true));
    let ghost w6 = one_if(repeated_key_count(ms) > 0, overall("warning"@, "quality"@,
        decimal(repeated_key_count(ms)) + " duplicate keys found"@, false));
    let ghost w7 = one_if(stale_count(ms, now) > 0, overall("info"@, "freshness"@,
        decimal(stale_count(ms, now)) + " memories haven't been updated in over a year"@, false));
    let ghost w8 = one_if(untagged_count(ms) > ms.len() / 2, overall("info"@, "organization"@,
        decimal(untagged_count(ms)) + " memories have no tags ("@ + decimal(untagged_percent(ms)) + "%)"@, false));
    let ghost a2 = one_if(repeated_key_count(ms) > 0, "Rename duplicate keys for uniqueness"@);
    let ghost a3 = one_if(stale_count(ms, now) > 0, "Review old memories for relevance"@);
    let ghost a4 = one_if(untagged_count(ms) > ms.len() / 2, "Add tags to memories for better searchability"@);
    if self_links > 0 {
        push_issue(issues, overall_issue("warning", "relationships", counted(self_links, " memories reference themselves"), true));
    }
    assert(issue_views(issues@) =~= i0 + w5);
    if dup_keys > 0 {
        push_issue(issues, overall_issue("warning", "quality", counted(dup_keys, " duplicate keys found"), false));
        push_text(advice, "Rename duplicate keys for uniqueness");
    }
    assert(issue_views(issues@) =~= i0 + w5 + w6);
    assert(strs(advice@) =~= a0 + a2);
    if stale > 0 {
        push_issue(issues, overall_issue("info", "freshness", counted(stale, " memories haven't been updated in over a year"), false));
        push_text(advice, "Review old memories for relevance");
    }
    assert(issue_views(issues@) =~= i0 + w5 + w6 + w7);
    assert(strs(advice@) =~= a0 + a2 + a3);
    if untagged > n / 2 {
        let pct = percent_of(untagged, n);
        let mut msg = counted(untagged, " memories have no tags (");
        push_decimal(&mut msg, pct);
        append_str(&mut msg, "%)");
        push_issue(issues, overall_issue("info", "organization", msg, false));
        push_text(advice, "Add tags to memories for better searchability");
    }
    assert(issue_views(issues@) =~= i0 + w5 + w6 + w7 + w8);
    assert(strs(advice@) =~= a0 + a2 + a3 + a4);
}

#[verifier::spinoff_prover]
#[verifier::rlimit(40)]
/// Validates the memories as of time `now` (microseconds since the epoch): the
/// issues found, in a fixed order, their counts by severity, the recommendations,
/// and the score.
pub fn validate_v2_at(memories: &[Memory], now: i64) -> (r: ValidationReport)
    ensures
        ({
            let ms = memory_views(memories@);
            let found = validation_issues(ms, now);
            &&& issue_views(r.issues@) == found
            &&& strs(r.recommendations@) == validation_advice(ms, now)
            &&& r.total_issues == found.len()
            &&& r.errors == severity_count(found, "error"@)
            &&& r.warnings == severity_count(found, "warning"@)
            &&& r.infos == severity_count(found, "info"@)
            &&& r.auto_fixable == fixable_count(found)
            &&& r.score == validation_score(ms.len(), r.errors as nat, r.warnings as nat)
        }),
{
    let ghost ms = memory_views(memories@);
    let t = tally(memories, now);
    let mut ids: Vec<String> = Vec::new();
    let mut j: usize = 0;
    while j < memories.len()
        invariant
            j <= memories.len(),
            ms == memory_views(memories@),
            strs(ids@) == known_ids(ms).take(j as int),
        decreases memories.len() - j,
    {
        let ghost before = strs(ids@);
        ids.push(memories[j].id.clone());
        assert(strs(ids@) =~= before.push(ms[j as int].id));
        assert(known_ids(ms).take(j + 1) =~= known_ids(ms).take(j as int).push(ms[j as int].id));
        j = j + 1;
    }
    assert(known_ids(ms).take(memories.len() as int) =~= known_ids(ms));
    let dup_keys = repeated_keys(memories);
    let (mut issues, mut advice) = leading(t.empty, t.short, t.dup_tags, Ghost(ms));
    let ghost part1 = issue_views(issues@);
    let broken = broken_link_issues(memories, &ids);
    let mut k: usize = 0;
    while k < broken.len()
        invariant
            k <= broken.len(),
            issue_views(issues@) == part1 + issue_views(broken@).take(k as int),
        decreases broken.len() - k,
    {
        push_issue(&mut issues, broken[k].clone_issue());
        assert(issue_views(broken@).take(k + 1) =~= issue_views(broken@).take(k as int).push(broken@[k as int]@));
        k = k + 1;
    }
    assert(issue_views(broken@).take(broken.len() as int) =~= issue_views(broken@));
    let ghost part2 = issue_views(issues@);
    let ghost adv1 = strs(advice@);
    trailing(&mut issues, &mut advice, t.self_links, dup_keys, t.stale, t.untagged, memories.len(), Ghost(ms), Ghost(now));
    assert(issue_views(issues@) =~= validation_issues(ms, now));
    assert(strs(advice@) =~= validation_advice(ms, now));
    proof {
        reveal_strlit("error");
    }
    let errors = severities(&issues, "error");
    let warnings = severities(&issues, "warning");
    let infos = severities(&issues, "info");
    let fixable = fixables(&issues);
    let score: u32 = if memories.len() == 0 {
        100
    } else {
        let penalty: u128 = 15 * (errors as u128) + 3 * (warnings as u128);
        if penalty >= 100 { 0 } else { (100 - penalty) as u32 }
    };
    let total = issues.len();
    ValidationReport {
        score,
        total_issues: total,
        errors,
        warnings,
        infos,
        auto_fixable: fixable,
        issues,
        recommendations: advice,
    }
}

impl Issue {
    /// A copy of this issue.
    pub fn clone_issue(&self) -> (r: Issue)
        ensures
            r@ == self@,
    {
        Issue {
            severity: self.severity.clone(),
            category: self.category.clone(),
            message: self.message.clone(),
            memory_id: match &self.memory_id {
                Some(s) => Some(s.clone()),
                None => None,
            },
            memory_key: match &self.memory_key {
                Some(s) => Some(s.clone()),
                None => None,
            },
            auto_fixable: self.auto_fixable,
        }
    }
}

/// Validates the memories as of now.
pub fn validate_v2(memories: &[Memory]) -> (r: ValidationReport)
    ensures
        exists|now: i64| #![trigger validation_issues(memory_views(memories@), now)] {
            let ms = memory_views(memories@);
            let found = validation_issues(ms, now);
            &&& issue_views(r.issues@) == found
            &&& strs(r.recommendations@) == validation_advice(ms, now)
            &&& r.total_issues == found.len()
            &&& r.errors == severity_count(found, "error"@)
            &&& r.warnings == severity_count(found, "warning"@)
            &&& r.infos == severity_count(found, "info"@)
            &&& r.auto_fixable == fixable_count(found)
            &&& r.score == validation_score(ms.len(), r.errors as nat, r.warnings as nat)
        },
{
    let now = crate::runtime::now_micros();
    let r = validate_v2_at(memories, now);
    assert(issue_views(r.issues@) == validation_issues(memory_views(memories@), now));
    r
}


/// The outcome of the simple validation: a score, the issues as lines, and how many
/// memories the simple fix would mend.
#[derive(Debug, Clone)]
pub struct ValidationResult {
    pub score: i64,
    pub issues: Vec<String>,
    pub auto_fixable: usize,
}

/// The simple issues of one memory: blank content, content under ten bytes, a tag twice.
pub open spec fn simple_issues_of(m: MemoryView) -> Seq<Seq<char>> {
    one_if(trim(m.content).len() == 0, m.key + ": empty content"@)
    + one_if(byte_len(m.content) < 10, m.key + ": very short content"@)
    + one_if(!m.tags.no_duplicates(), m.key + ": duplicate tags"@)
}

/// The simple issues of the first `n` memories, in order.
pub open spec fn simple_issues(ms: Seq<MemoryView>, n: int) -> Seq<Seq<char>>
    decreases n,
{
    if n <= 0 {
        seq![]
    } else {
        simple_issues(ms, n - 1) + simple_issues_of(ms[n - 1])
    }
}

/// The simple score: a hundred, less five per issue when there are memories.
pub open spec fn simple_score(n: nat, issues: nat) -> int {
    if n == 0 {
        100
    } else {
        100 - 5 * issues
    }
}

/// The simple issues grow by at most three per memory.
proof fn lemma_simple_issues_len(ms: Seq<MemoryView>, n: int)
    requires
        0 <= n,
    ensures
        simple_issues(ms, n).len() <= 3 * n,
    decreases n,
{
    if n > 0 {
        lemma_simple_issues_len(ms, n - 1);
    }
}

/// The simple validation: per memory, blank content, content under ten bytes and
/// repeated tags, each as a line `key: problem`.
pub fn validate_memories(memories: &[Memory]) -> (r: ValidationResult)
    requires
        memories.len() <= 0x0100_0000_0000_0000,
    ensures
        strs(r.issues@) == simple_issues(memory_views(memories@), memories.len() as int),
        r.auto_fixable == dup_tag_count(memory_views(memories@)),
        r.score == simple_score(memories.len() as nat, r.issues.len() as nat),
{
    let ghost ms = memory_views(memories@);
    let mut issues: Vec<String> = Vec::new();
    let mut fixable: usize = 0;
    let mut i: usize = 0;
    assert(strs(issues@) =~= Seq::<Seq<char>>::empty());
    while i < memories.len()
        invariant
            i <= memories.len(),
            ms == memory_views(memories@),
            strs(issues@) == simple_issues(ms, i as int),
            fixable == count_upto(i as int, |k: int| !ms[k].tags.no_duplicates()),
            fixable <= i,
        decreases memories.len() - i,
    {
        let m = &memories[i];
        assert(m@ == ms[i as int]);
        let ghost base = strs(issues@);
        let cs = chars_of(m.content.as_str());
        if is_blank(cs.as_slice()) {
            let mut l = m.key.clone();
            append_str(&mut l, ": empty content");
            push_text(&mut issues, l.as_str());
        }
        let ghost s1 = one_if(trim(m@.content).len() == 0, m@.key + ": empty content"@);
        assert(strs(issues@) =~= base + s1);
        if m.content.as_str().as_bytes().len() < 10 {
            let mut l = m.key.clone();
            append_str(&mut l, ": very short content");
            push_text(&mut issues, l.as_str());
        }
        let ghost s2 = one_if(byte_len(m@.content) < 10, m@.key + ": very short content"@);
        assert(strs(issues@) =~= base + s1 + s2);
        let d = sorted_distinct(m.tags.as_slice());
        proof {
            lemma_distinct_len(ms[i as int].tags, strs(d@));
        }
        if d.len() != m.tags.len() {
            let mut l = m.key.clone();
            append_str(&mut l, ": duplicate tags");
            push_text(&mut issues, l.as_str());
            fixable = fixable + 1;
        }
        let ghost s3 = one_if(!m@.tags.no_duplicates(), m@.key + ": duplicate tags"@);
        assert(strs(issues@) =~= base + s1 + s2 + s3);
        assert(simple_issues_of(m@) == s1 + s2 + s3);
        assert(strs(issues@) =~= simple_issues(ms, i + 1));
        i = i + 1;
    }
    proof {
        lemma_simple_issues_len(ms, memories.len() as int);
    }
    let score: i64 = if memories.len() == 0 { 100 } else { 100 - 5 * (issues.len() as i64) };
    ValidationResult { score, issues, auto_fixable: fixable }
}

/// A whole number as `{:.1}` prints it: its decimal digits, a sign when negative, and `.0`.
pub open spec fn one_decimal(v: int) -> Seq<char> {
    (if v < 0 { "-"@ + decimal((-v) as nat) } else { decimal(v as nat) }) + ".0"@
}

/// Appends a whole number as `{:.1}` prints it.
fn push_one_decimal(s: &mut String, v: i64)
    ensures
        final(s)@ == old(s)@ + one_decimal(v as int),
{
    if v < 0 {
        append_str(s, "-");
        let m: u64 = if v == i64::MIN { 0x8000_0000_0000_0000u64 } else { (-v) as u64 };
        assert(m == -(v as int));
        let ghost mid = s@;
        crate::text::push_decimal_u64(s, m);
        append_str(s, ".0");
        assert(s@ =~= old(s)@ + one_decimal(v as int));
    } else {
        crate::text::push_decimal_u64(s, v as u64);
        append_str(s, ".0");
        assert(s@ =~= old(s)@ + one_decimal(v as int));
    }
}

/// The lines of a list, each indented and marked with `- `.
pub open spec fn dash_lines(items: Seq<Seq<char>>) -> Seq<char>
    decreases items.len(),
{
    if items.len() == 0 {
        seq![]
    } else {
        dash_lines(items.drop_last()) + "  - "@ + items.last() + "\n"@
    }
}

/// The text of a simple validation.
pub open spec fn simple_report(score: int, issues: Seq<Seq<char>>) -> Seq<char> {
    "Score: "@ + one_decimal(score) + "/100\nIssues: "@ + decimal(issues.len()) + "\n"@ + dash_lines(issues)
}

/// Writes the simple validation as text: its score, the number of issues, then each.
pub fn format_validation(result: &ValidationResult) -> (r: String)
    ensures
        r@ == simple_report(result.score as int, strs(result.issues@)),
{
    let mut o = "Score: ".to_owned();
    push_one_decimal(&mut o, result.score);
    append_str(&mut o, "/100\nIssues: ");
    push_decimal(&mut o, result.issues.len());
    append_str(&mut o, "\n");
    let ghost head = o@;
    let mut i: usize = 0;
    assert(strs(result.issues@).take(0) =~= Seq::<Seq<char>>::empty());
    assert(o@ =~= head + dash_lines(strs(result.issues@).take(0)));
    while i < result.issues.len()
        invariant
            i <= result.issues.len(),
            o@ == head + dash_lines(strs(result.issues@).take(i as int)),
        decreases result.issues.len() - i,
    {
        append_str(&mut o, "  - ");
        append_str(&mut o, result.issues[i].as_str());
        append_str(&mut o, "\n");
        assert(strs(result.issues@).take(i + 1).drop_last() =~= strs(result.issues@).take(i as int));
        i = i + 1;
    }
    assert(strs(result.issues@).take(result.issues.len() as int) =~= strs(result.issues@));
    o
}


/// The mark printed before an issue of the given severity.
pub open spec fn severity_icon(severity: Seq<char>) -> Seq<char> {
    if severity == "error"@ {
        "[error]"@
    } else if severity == "warning"@ {
        "[warn]"@
    } else {
        "[info]"@
    }
}

/// One line per issue: its mark and its message.
pub open spec fn issue_lines(issues: Seq<IssueView>) -> Seq<char>
    decreases issues.len(),
{
    if issues.len() == 0 {
        seq![]
    } else {
        issue_lines(issues.drop_last()) + "  "@ + severity_icon(issues.last().severity) + " "@
            + issues.last().message + "\n"@
    }
}

/// The text of a validation report.
pub open spec fn report_text(r: ValidationReport) -> Seq<char> {
    "Validation Report\n=================\n\nScore: "@ + one_decimal(r.score as int) + "/100\n\nIssues: "@
        + decimal(r.total_issues as nat) + "\n  Errors: "@ + decimal(r.errors as nat) + "\n  Warnings: "@
        + decimal(r.warnings as nat) + "\n  Info: "@ + decimal(r.infos as nat) + "\n  Auto-fixable: "@
        + decimal(r.auto_fixable as nat) + "\n\n"@
        + (if r.issues.len() > 0 { "Details:\n"@ + issue_lines(issue_views(r.issues@)) + "\n"@ } else { seq![] })
        + (if r.recommendations.len() > 0 { "Recommendations:\n"@ + dash_lines(strs(r.recommendations@)) } else { seq![] })
}

/// Writes a validation report as text: score, counts, each issue, then the advice.
pub fn format_validation_report(report: &ValidationReport) -> (r: String)
    ensures
        r@ == report_text(*report),
{
    let mut o = "Validation Report\n=================\n\nScore: ".to_owned();
    push_one_decimal(&mut o, report.score as i64);
    append_str(&mut o, "/100\n\nIssues: ");
    push_decimal(&mut o, report.total_issues);
    append_str(&mut o, "\n  Errors: ");
    push_decimal(&mut o, report.errors);
    append_str(&mut o, "\n  Warnings: ");
    push_decimal(&mut o, report.warnings);
    append_str(&mut o, "\n  Info: ");
    push_decimal(&mut o, report.infos);
    append_str(&mut o, "\n  Auto-fixable: ");
    push_decimal(&mut o, report.auto_fixable);
    append_str(&mut o, "\n\n");
    let ghost head = o@;
    if report.issues.len() > 0 {
        append_str(&mut o, "Details:\n");
        let ghost h2 = o@;
        let ghost iv = issue_views(report.issues@);
        let mut i: usize = 0;
        assert(iv.take(0) =~= Seq::<IssueView>::empty());
        assert(o@ =~= h2 + issue_lines(iv.take(0)));
        while i < report.issues.len()
            invariant
                i <= report.issues.len(),
                iv == issue_views(report.issues@),
                o@ == h2 + issue_lines(iv.take(i as int)),
            decreases report.issues.len() - i,
        {
            let issue = &report.issues[i];
            let icon = if crate::text::str_eq(issue.severity.as_str(), "error") {
                "[error]"
            } else if crate::text::str_eq(issue.severity.as_str(), "warning") {
                "[warn]"
            } else {
                "[info]"
            };
            assert(icon@ == severity_icon(issue@.severity));
            append_str(&mut o, "  ");
            append_str(&mut o, icon);
            append_str(&mut o, " ");
            append_str(&mut o, issue.message.as_str());
            append_str(&mut o, "\n");
            assert(iv.take(i + 1).drop_last() =~= iv.take(i as int));
            assert(iv.take(i + 1).last() == issue@);
            i = i + 1;
        }
        assert(iv.take(report.issues.len() as int) =~= iv);
        append_str(&mut o, "\n");
    }
    let ghost mid = o@;
    if report.recommendations.len() > 0 {
        append_str(&mut o, "Recommendations:\n");
        let ghost h3 = o@;
        let ghost rv = strs(report.recommendations@);
        let mut i: usize = 0;
        assert(rv.take(0) =~= Seq::<Seq<char>>::empty());
        assert(o@ =~= h3 + dash_lines(rv.take(0)));
        while i < report.recommendations.len()
            invariant
                i <= report.recommendations.len(),
                rv == strs(report.recommendations@),
                o@ == h3 + dash_lines(rv.take(i as int)),
            decreases report.recommendations.len() - i,
        {
            append_str(&mut o, "  - ");
            append_str(&mut o, report.recommendations[i].as_str());
            append_str(&mut o, "\n");
            assert(rv.take(i + 1).drop_last() =~= rv.take(i as int));
            i = i + 1;
        }
        assert(rv.take(report.recommendations.len() as int) =~= rv);
    }
    assert(o@ =~= report_text(*report));
    o
}

} // verus!
