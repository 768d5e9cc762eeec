//! Snapshots of a store and what changed between two of them.

use vstd::prelude::*;
use crate::text::{strs, str_eq, append_str, join, join_strings, owned, str_starts_with, push_char, push_decimal};
use crate::types::{Memory, MemoryView, memory_views, kind_name};

verus! {

/// A saved copy of a store's memories. Times are microseconds since the Unix epoch.
#[derive(Debug, Clone)]
pub struct Snapshot {
    pub id: String,
    pub name: String,
    pub memory_count: usize,
    pub created_at: i64,
    pub memories: Vec<Memory>,
}

/// A memory present on both sides with different fields.
#[derive(Debug, Clone)]
pub struct ModifiedMemory {
    pub key: String,
    pub old: Memory,
    pub new: Memory,
    pub changes: Vec<String>,
}

/// The plain value of a modified memory.
pub struct ModifiedView {
    pub key: Seq<char>,
    pub old: MemoryView,
    pub new: MemoryView,
    pub changes: Seq<Seq<char>>,
}

impl View for ModifiedMemory {
    type V = ModifiedView;

    open spec fn view(&self) -> ModifiedView {
        ModifiedView { key: self.key@, old: self.old@, new: self.new@, changes: strs(self.changes@) }
    }
}

/// The plain values of a sequence of modified memories.
pub open spec fn modified_views(v: Seq<ModifiedMemory>) -> Seq<ModifiedView> {
    v.map_values(|m: ModifiedMemory| m@)
}

/// What changed between two lists of memories, matched by id.
#[derive(Debug, Clone)]
pub struct DiffResult {
    pub added: Vec<Memory>,
    pub removed: Vec<Memory>,
    pub modified: Vec<ModifiedMemory>,
    pub unchanged: usize,
}

/// The memory at `i` has an id that an earlier one has.
pub open spec fn id_seen_before(ms: Seq<MemoryView>, i: int) -> bool {
    exists|j: int| 0 <= j < i && ms[j].id == ms[i].id
}

/// The last memory with id `id`: the one an id-keyed map built from the list keeps.
pub open spec fn last_of(ms: Seq<MemoryView>, id: Seq<char>) -> Option<MemoryView>
    decreases ms.len(),
{
    if ms.len() == 0 {
        None
    } else if ms.last().id == id {
        Some(ms.last())
    } else {
        last_of(ms.drop_last(), id)
    }
}

/// The changes from one memory to another, in the order key, content, kind, tags.
pub open spec fn changes_between(a: MemoryView, b: MemoryView) -> Seq<Seq<char>> {
    let key = if a.key != b.key {
        seq!["key: '"@ + a.key + "' \u{2192} '"@ + b.key + "'"@]
    } else {
        Seq::empty()
    };
    let content = if a.content != b.content {
        seq!["content changed"@]
    } else {
        Seq::empty()
    };
    let kind = if a.kind != b.kind {
        seq!["kind: '"@ + kind_name(a.kind) + "' \u{2192} '"@ + kind_name(b.kind) + "'"@]
    } else {
        Seq::empty()
    };
    let tags = if a.tags != b.tags {
        seq!["tags: ["@ + join(a.tags, ", "@) + "] \u{2192} ["@ + join(b.tags, ", "@) + "]"@]
    } else {
        Seq::empty()
    };
    key + content + kind + tags
}

/// The changes from one memory to another are empty exactly when the two agree on
/// key, content, kind and tag list; each field that differs is reported, the tags
/// with both lists.
pub proof fn law_changes_report_differences(a: MemoryView, b: MemoryView)
    ensures
        changes_between(a, b).len() == 0 <==> (a.key == b.key && a.content == b.content && a.kind == b.kind
            && a.tags == b.tags),
        a.key != b.key ==> changes_between(a, b).contains("key: '"@ + a.key + "' \u{2192} '"@ + b.key + "'"@),
        a.content != b.content ==> changes_between(a, b).contains("content changed"@),
        a.kind != b.kind ==> changes_between(a, b).contains(
            "kind: '"@ + kind_name(a.kind) + "' \u{2192} '"@ + kind_name(b.kind) + "'"@),
        a.tags != b.tags ==> changes_between(a, b).contains(
            "tags: ["@ + join(a.tags, ", "@) + "] \u{2192} ["@ + join(b.tags, ", "@) + "]"@),
{
    let c = changes_between(a, b);
    if a.tags != b.tags {
        assert(c[c.len() - 1] == "tags: ["@ + join(a.tags, ", "@) + "] \u{2192} ["@ + join(b.tags, ", "@) + "]"@);
    }
    let key = if a.key != b.key {
        seq!["key: '"@ + a.key + "' \u{2192} '"@ + b.key + "'"@]
    } else {
        Seq::<Seq<char>>::empty()
    };
    let content = if a.content != b.content { seq!["content changed"@] } else { Seq::<Seq<char>>::empty() };
    if a.key != b.key {
        assert(c[0] == key[0]);
    }
    if a.content != b.content {
        assert(c[key.len() as int] == "content changed"@);
    }
    if a.kind != b.kind {
        assert(c[(key.len() + content.len()) as int] == "kind: '"@ + kind_name(a.kind) + "' \u{2192} '"@ + kind_name(b.kind) + "'"@);
    }
}

/// The added, modified and unchanged memories found among the first `k` of `new`,
/// each id taken once, at its first place, with its last memory on either side.
pub open spec fn diff_new(old: Seq<MemoryView>, new: Seq<MemoryView>, k: int) -> (Seq<MemoryView>, Seq<ModifiedView>, nat)
    decreases k,
{
    if k <= 0 {
        (Seq::empty(), Seq::empty(), 0)
    } else {
        let prev = diff_new(old, new, k - 1);
        if k > new.len() || id_seen_before(new, k - 1) {
            prev
        } else {
            let nm = last_of(new, new[k - 1].id).unwrap();
            match last_of(old, new[k - 1].id) {
                None => (prev.0.push(nm), prev.1, prev.2),
                Some(om) => {
                    let ch = changes_between(om, nm);
                    if ch.len() == 0 {
                        (prev.0, prev.1, prev.2 + 1)
                    } else {
                        (prev.0, prev.1.push(ModifiedView { key: nm.key, old: om, new: nm, changes: ch }), prev.2)
                    }
                },
            }
        }
    }
}

/// The memories among the first `k` of `old` whose id `new` does not have, each id
/// taken once, at its first place, with its last memory.
pub open spec fn diff_removed(old: Seq<MemoryView>, new: Seq<MemoryView>, k: int) -> Seq<MemoryView>
    decreases k,
{
    if k <= 0 {
        Seq::empty()
    } else {
        let prev = diff_removed(old, new, k - 1);
        if k > old.len() || id_seen_before(old, k - 1) || last_of(new, old[k - 1].id) is Some {
            prev
        } else {
            prev.push(last_of(old, old[k - 1].id).unwrap())
        }
    }
}

/// Where the last memory with id `id` stands.
fn last_index(ms: &[Memory], id: &str) -> (r: Option<usize>)
    ensures
        match r {
            Some(i) => i < ms.len() && ms@[i as int].id@ == id@ && last_of(memory_views(ms@), id@)
                == Some(ms@[i as int]@),
            None => last_of(memory_views(ms@), id@) is None,
        },
{
    let ghost s = memory_views(ms@);
    let mut i = ms.len();
    assert(s.take(i as int) =~= s);
    while i > 0
        invariant
            i <= ms.len(),
            s == memory_views(ms@),
            last_of(s, id@) == last_of(s.take(i as int), id@),
        decreases i,
    {
        assert(s.take(i as int).last() == ms@[i - 1]@);
        if str_eq(ms[i - 1].id.as_str(), id) {
            return Some(i - 1);
        }
        assert(s.take(i as int).drop_last() =~= s.take(i - 1));
        i = i - 1;
    }
    None
}

/// Whether an earlier memory has the id of the one at `i`.
fn seen_before(ms: &[Memory], i: usize) -> (r: bool)
    requires
        i < ms.len(),
    ensures
        r == id_seen_before(memory_views(ms@), i as int),
{
    let mut j: usize = 0;
    while j < i
        invariant
            j <= i < ms.len(),
            forall|q: int| 0 <= q < j ==> ms@[q].id@ != ms@[i as int].id@,
        decreases i - j,
    {
        if str_eq(ms[j].id.as_str(), ms[i].id.as_str()) {
            assert(memory_views(ms@)[j as int].id == memory_views(ms@)[i as int].id);
            return true;
        }
        j = j + 1;
    }
    false
}

/// Whether two lists of strings are equal.
fn strings_equal(a: &Vec<String>, b: &Vec<String>) -> (r: bool)
    ensures
        r == (strs(a@) == strs(b@)),
{
    if a.len() != b.len() {
        return false;
    }
    let mut i: usize = 0;
    while i < a.len()
        invariant
            i <= a.len() == b.len(),
            forall|q: int| 0 <= q < i ==> a@[q]@ == b@[q]@,
        decreases a.len() - i,
    {
        if !str_eq(a[i].as_str(), b[i].as_str()) {
            assert(strs(a@)[i as int] != strs(b@)[i as int]);
            return false;
        }
        i = i + 1;
    }
    assert(strs(a@) =~= strs(b@));
    true
}

/// The changes from one memory to another: its key (old and new), its content, its
/// kind (old and new) and its tags (old and new, comma-separated), each when it
/// differs, in that order.
pub fn diff_memory(old: &Memory, new: &Memory) -> (r: Vec<String>)
    ensures
        strs(r@) == changes_between(old@, new@),
        r@.len() == 0 <==> (old@.key == new@.key && old@.content == new@.content && old@.kind == new@.kind
            && old@.tags == new@.tags),
{
    proof {
        law_changes_report_differences(old@, new@);
    }
    let mut changes: Vec<String> = Vec::new();
    let ghost a = old@;
    let ghost b = new@;
    if !str_eq(old.key.as_str(), new.key.as_str()) {
        let mut s = owned("key: '");
        append_str(&mut s, old.key.as_str());
        append_str(&mut s, "' \u{2192} '");
        append_str(&mut s, new.key.as_str());
        append_str(&mut s, "'");
        changes.push(s);
    }
    let ghost c1 = strs(changes@);
    if !str_eq(old.content.as_str(), new.content.as_str()) {
        changes.push(owned("content changed"));
    }
    let ghost c2 = strs(changes@);
    if old.kind != new.kind {
        let mut s = owned("kind: '");
        append_str(&mut s, old.kind.to_string().as_str());
        append_str(&mut s, "' \u{2192} '");
        append_str(&mut s, new.kind.to_string().as_str());
        append_str(&mut s, "'");
        changes.push(s);
    }
    let ghost c3 = strs(changes@);
    if !strings_equal(&old.tags, &new.tags) {
        let mut s = owned("tags: [");
        append_str(&mut s, join_strings(old.tags.as_slice(), ", ").as_str());
        append_str(&mut s, "] \u{2192} [");
        append_str(&mut s, join_strings(new.tags.as_slice(), ", ").as_str());
        append_str(&mut s, "]");
        changes.push(s);
    }
    assert(strs(changes@) =~= changes_between(a, b));
    changes
}

/// What changed from `old` to `new`, memories matched by id (the last of each id
/// counts on either side): the memories only in `new`, those only in `old`, those
/// whose key, content, kind or tags differ, and how many are alike. Each list
/// follows the first place of each id in its side.
pub fn diff_snapshots(old: &[Memory], new: &[Memory]) -> (r: DiffResult)
    ensures
        memory_views(r.added@) == diff_new(memory_views(old@), memory_views(new@), new@.len() as int).0,
        modified_views(r.modified@) == diff_new(memory_views(old@), memory_views(new@), new@.len() as int).1,
        r.unchanged == diff_new(memory_views(old@), memory_views(new@), new@.len() as int).2,
        memory_views(r.removed@) == diff_removed(memory_views(old@), memory_views(new@), old@.len() as int),
{
    let ghost os = memory_views(old@);
    let ghost ns = memory_views(new@);
    let mut added: Vec<Memory> = Vec::new();
    let mut modified: Vec<ModifiedMemory> = Vec::new();
    let mut unchanged: usize = 0;
    let mut k: usize = 0;
    while k < new.len()
        invariant
            k <= new.len(),
            os == memory_views(old@),
            ns == memory_views(new@),
            memory_views(added@) == diff_new(os, ns, k as int).0,
            modified_views(modified@) == diff_new(os, ns, k as int).1,
            unchanged == diff_new(os, ns, k as int).2,
            unchanged <= k,
        decreases new.len() - k,
    {
        if !seen_before(new, k) {
            let ni = match last_index(new, new[k].id.as_str()) {
                Some(i) => i,
                None => {
                    proof {
                        let s = ns;
                        assert(ns[k as int].id == new@[k as int].id@);
                        lemma_last_of_some(s, k as int);
                    }
                    return DiffResult { added, removed: Vec::new(), modified, unchanged };
                },
            };
            match last_index(old, new[k].id.as_str()) {
                None => {
                    let ghost prev = memory_views(added@);
                    let c = new[ni].copy();
                    added.push(c);
                    assert(memory_views(added@) =~= prev.push(c@));
                },
                Some(oi) => {
                    let changes = diff_memory(&old[oi], &new[ni]);
                    if changes.len() == 0 {
                        unchanged = unchanged + 1;
                    } else {
                        let ghost prev = modified_views(modified@);
                        let mm = ModifiedMemory {
                            key: new[ni].key.clone(),
                            old: old[oi].copy(),
                            new: new[ni].copy(),
                            changes,
                        };
                        modified.push(mm);
                        assert(modified_views(modified@) =~= prev.push(mm@));
                    }
                },
            }
        }
        k = k + 1;
    }
    let mut removed: Vec<Memory> = Vec::new();
    let mut k: usize = 0;
    while k < old.len()
        invariant
            k <= old.len(),
            os == memory_views(old@),
            ns == memory_views(new@),
            memory_views(removed@) == diff_removed(os, ns, k as int),
        decreases old.len() - k,
    {
        if !seen_before(old, k) {
            match last_index(new, old[k].id.as_str()) {
                Some(_) => {},
                None => {
                    match last_index(old, old[k].id.as_str()) {
                        Some(oi) => {
                            let ghost prev = memory_views(removed@);
                            let c = old[oi].copy();
                            removed.push(c);
                            assert(memory_views(removed@) =~= prev.push(c@));
                        },
                        None => {
                            proof {
                                assert(os[k as int].id == old@[k as int].id@);
                                lemma_last_of_some(os, k as int);
                            }
                        },
                    }
                },
            }
        }
        k = k + 1;
    }
    DiffResult { added, removed, modified, unchanged }
}

/// A list that holds a memory with some id has a last memory with that id.
pub proof fn lemma_last_of_some(ms: Seq<MemoryView>, i: int)
    requires
        0 <= i < ms.len(),
    ensures
        last_of(ms, ms[i].id) is Some,
    decreases ms.len(),
{
    if ms.last().id != ms[i].id {
        assert(i < ms.len() - 1);
        assert(ms.drop_last()[i] == ms[i]);
        lemma_last_of_some(ms.drop_last(), i);
    }
}

/// The last memory with an id has that id.
proof fn lemma_last_of_id(ms: Seq<MemoryView>, id: Seq<char>)
    ensures
        last_of(ms, id) matches Some(m) ==> m.id == id,
    decreases ms.len(),
{
    if ms.len() > 0 && ms.last().id != id {
        lemma_last_of_id(ms.drop_last(), id);
    }
}

/// What a diff reports is so: an added memory's id is not in the old list; a modified
/// memory has the same id on both sides and at least one change, the changes between
/// its two sides; and a memory counts as unchanged only when nothing changed.
pub proof fn law_diff_reports_truly(old: Seq<MemoryView>, new: Seq<MemoryView>, k: int)
    ensures
        forall|i: int| 0 <= i < diff_new(old, new, k).0.len() ==> last_of(old,
            (#[trigger] diff_new(old, new, k).0[i]).id) is None,
        forall|i: int| 0 <= i < diff_new(old, new, k).1.len() ==> {
            let mv = #[trigger] diff_new(old, new, k).1[i];
            &&& mv.old.id == mv.new.id
            &&& mv.changes == changes_between(mv.old, mv.new)
            &&& mv.changes.len() > 0
            &&& !(mv.old.key == mv.new.key && mv.old.content == mv.new.content && mv.old.kind == mv.new.kind
                && mv.old.tags == mv.new.tags)
        },
    decreases k,
{
    if k > 0 {
        law_diff_reports_truly(old, new, k - 1);
        let prev = diff_new(old, new, k - 1);
        if !(k > new.len() || id_seen_before(new, k - 1)) {
            let id = new[k - 1].id;
            lemma_last_of_some(new, k - 1);
            lemma_last_of_id(new, id);
            lemma_last_of_id(old, id);
            let nm = last_of(new, id).unwrap();
            match last_of(old, id) {
                None => {
                    let d = diff_new(old, new, k);
                    assert forall|i: int| 0 <= i < d.0.len() implies last_of(old, (#[trigger] d.0[i]).id) is None by {
                        if i < prev.0.len() {
                            assert(d.0[i] == prev.0[i]);
                        }
                    }
                },
                Some(om) => {
                    law_changes_report_differences(om, nm);
                    let d = diff_new(old, new, k);
                    assert forall|i: int| 0 <= i < d.1.len() implies {
                        let mv = #[trigger] d.1[i];
                        &&& mv.old.id == mv.new.id
                        &&& mv.changes == changes_between(mv.old, mv.new)
                        &&& mv.changes.len() > 0
                        &&& !(mv.old.key == mv.new.key && mv.old.content == mv.new.content && mv.old.kind == mv.new.kind
                            && mv.old.tags == mv.new.tags)
                    } by {
                        if i < prev.1.len() {
                            assert(d.1[i] == prev.1[i]);
                        }
                    }
                },
            }
        }
    }
}

/// Comparing a state with itself finds nothing added, removed or modified: every
/// memory (each id once) is unchanged.
pub proof fn law_diff_with_itself(ms: Seq<MemoryView>, k: int)
    requires
        0 <= k <= ms.len(),
    ensures
        diff_new(ms, ms, k).0.len() == 0,
        diff_new(ms, ms, k).1.len() == 0,
        diff_removed(ms, ms, k).len() == 0,
    decreases k,
{
    if k > 0 {
        law_diff_with_itself(ms, k - 1);
        lemma_last_of_some(ms, k - 1);
        let m = last_of(ms, ms[k - 1].id).unwrap();
        assert(changes_between(m, m) =~= Seq::<Seq<char>>::empty());
    }
}

// ---------------------------------------------------------------------------
// Showing a diff
// ---------------------------------------------------------------------------

/// One line for an added or removed memory: `  <sign> [kind] key: content`.
pub open spec fn entry_line(sign: char, m: MemoryView) -> Seq<char> {
    "  "@ + seq![sign] + " ["@ + kind_name(m.kind) + "] "@ + m.key + ": "@ + m.content + seq!['\n']
}

/// The lines of the first `k` memories.
pub open spec fn entry_lines(sign: char, ms: Seq<MemoryView>, k: int) -> Seq<char>
    decreases k,
{
    if k <= 0 || k > ms.len() {
        Seq::empty()
    } else {
        entry_lines(sign, ms, k - 1) + entry_line(sign, ms[k - 1])
    }
}

/// The lines of the first `k` changes, each indented by six spaces.
pub open spec fn change_lines(cs: Seq<Seq<char>>, k: int) -> Seq<char>
    decreases k,
{
    if k <= 0 || k > cs.len() {
        Seq::empty()
    } else {
        change_lines(cs, k - 1) + "      "@ + cs[k - 1] + seq!['\n']
    }
}

/// The lines of the first `k` modified memories: `  ~ [old kind] key`, then its changes.
pub open spec fn modified_lines(ms: Seq<ModifiedView>, k: int) -> Seq<char>
    decreases k,
{
    if k <= 0 || k > ms.len() {
        Seq::empty()
    } else {
        modified_lines(ms, k - 1) + "  ~ ["@ + kind_name(ms[k - 1].old.kind) + "] "@ + ms[k - 1].key
            + seq!['\n'] + change_lines(ms[k - 1].changes, ms[k - 1].changes.len() as int)
    }
}

/// A section: its marker, title and count, its lines, and a blank line; nothing
/// when it has no entries.
pub open spec fn section(marker: Seq<char>, title: Seq<char>, n: nat, lines: Seq<char>) -> Seq<char> {
    if n == 0 {
        Seq::empty()
    } else {
        marker + seq![' '] + title + " ("@ + crate::text::decimal(n) + "):\n"@ + lines + seq!['\n']
    }
}

/// The report of a diff, its section markers given: "No changes detected." when
/// nothing was added, removed or modified.
pub open spec fn diff_text(
    added: Seq<MemoryView>,
    removed: Seq<MemoryView>,
    modified: Seq<ModifiedView>,
    unchanged: nat,
    plus: Seq<char>,
    minus: Seq<char>,
    tilde: Seq<char>,
) -> Seq<char> {
    if added.len() == 0 && removed.len() == 0 && modified.len() == 0 {
        "No changes detected."@
    } else {
        section(plus, "Added"@, added.len(), entry_lines('+', added, added.len() as int))
            + section(minus, "Removed"@, removed.len(), entry_lines('-', removed, removed.len() as int))
            + section(tilde, "Modified"@, modified.len(), modified_lines(modified, modified.len() as int))
            + crate::text::decimal(unchanged) + " unchanged"@
    }
}

/// Appends the lines of some memories.
fn push_entries(out: &mut String, sign: char, ms: &Vec<Memory>)
    ensures
        final(out)@ == old(out)@ + entry_lines(sign, memory_views(ms@), ms@.len() as int),
{
    let ghost v = memory_views(ms@);
    let mut i: usize = 0;
    while i < ms.len()
        invariant
            i <= ms.len(),
            v == memory_views(ms@),
            out@ == old(out)@ + entry_lines(sign, v, i as int),
        decreases ms.len() - i,
    {
        let ghost before = out@;
        append_str(out, "  ");
        push_char(out, sign);
        append_str(out, " [");
        append_str(out, ms[i].kind.to_string().as_str());
        append_str(out, "] ");
        append_str(out, ms[i].key.as_str());
        append_str(out, ": ");
        append_str(out, ms[i].content.as_str());
        push_char(out, '\n');
        assert(out@ =~= before + entry_line(sign, v[i as int]));
        i = i + 1;
    }
}

/// Appends the lines of some modified memories.
fn push_modified(out: &mut String, ms: &Vec<ModifiedMemory>)
    ensures
        final(out)@ == old(out)@ + modified_lines(modified_views(ms@), ms@.len() as int),
{
    let ghost v = modified_views(ms@);
    let mut i: usize = 0;
    while i < ms.len()
        invariant
            i <= ms.len(),
            v == modified_views(ms@),
            out@ == old(out)@ + modified_lines(v, i as int),
        decreases ms.len() - i,
    {
        let ghost before = out@;
        append_str(out, "  ~ [");
        append_str(out, ms[i].old.kind.to_string().as_str());
        append_str(out, "] ");
        append_str(out, ms[i].key.as_str());
        push_char(out, '\n');
        let ghost head = out@;
        let cs = &ms[i].changes;
        let mut j: usize = 0;
        while j < cs.len()
            invariant
                i < ms.len(),
                j <= cs.len(),
                cs == &ms@[i as int].changes,
                out@ == head + change_lines(strs(cs@), j as int),
            decreases cs.len() - j,
        {
            let ghost b = out@;
            append_str(out, "      ");
            append_str(out, cs[j].as_str());
            push_char(out, '\n');
            assert(out@ =~= b + "      "@ + strs(cs@)[j as int] + seq!['\n']);
            j = j + 1;
        }
        assert(v[i as int].changes == strs(cs@));
        assert(out@ =~= before + "  ~ ["@ + kind_name(v[i as int].old.kind) + "] "@ + v[i as int].key
            + seq!['\n'] + change_lines(v[i as int].changes, v[i as int].changes.len() as int));
        i = i + 1;
    }
}

/// Appends a section header.
fn push_header(out: &mut String, marker: &str, title: &str, n: usize)
    ensures
        final(out)@ == old(out)@ + marker@ + seq![' '] + title@ + " ("@ + crate::text::decimal(n as nat) + "):\n"@,
{
    append_str(out, marker);
    push_char(out, ' ');
    append_str(out, title);
    append_str(out, " (");
    push_decimal(out, n);
    append_str(out, "):\n");
    assert(out@ =~= old(out)@ + marker@ + seq![' '] + title@ + " ("@ + crate::text::decimal(n as nat) + "):\n"@);
}

/// The report of a diff: for added, removed and modified memories in turn, when
/// there are any, the section marker, its title and count, one line each and a
/// blank line; then how many are unchanged. "No changes detected." when nothing
/// was added, removed or modified. The markers are given as they are to be shown.
pub fn format_diff(diff: &DiffResult, plus: &str, minus: &str, tilde: &str) -> (r: String)
    ensures
        r@ == diff_text(
            memory_views(diff.added@),
            memory_views(diff.removed@),
            modified_views(diff.modified@),
            diff.unchanged as nat,
            plus@,
            minus@,
            tilde@,
        ),
{
    if diff.added.len() == 0 && diff.removed.len() == 0 && diff.modified.len() == 0 {
        return owned("No changes detected.");
    }
    let mut out = String::new();
    let ghost s0 = out@;
    if diff.added.len() > 0 {
        push_header(&mut out, plus, "Added", diff.added.len());
        push_entries(&mut out, '+', &diff.added);
        push_char(&mut out, '\n');
    }
    assert(out@ =~= s0 + section(plus@, "Added"@, diff.added@.len(), entry_lines('+', memory_views(diff.added@), diff.added@.len() as int)));
    let ghost s1 = out@;
    if diff.removed.len() > 0 {
        push_header(&mut out, minus, "Removed", diff.removed.len());
        push_entries(&mut out, '-', &diff.removed);
        push_char(&mut out, '\n');
    }
    assert(out@ =~= s1 + section(minus@, "Removed"@, diff.removed@.len(), entry_lines('-', memory_views(diff.removed@), diff.removed@.len() as int)));
    let ghost s2 = out@;
    if diff.modified.len() > 0 {
        push_header(&mut out, tilde, "Modified", diff.modified.len());
        push_modified(&mut out, &diff.modified);
        push_char(&mut out, '\n');
    }
    assert(out@ =~= s2 + section(tilde@, "Modified"@, diff.modified@.len(), modified_lines(modified_views(diff.modified@), diff.modified@.len() as int)));
    let ghost s3 = out@;
    push_decimal(&mut out, diff.unchanged);
    append_str(&mut out, " unchanged");
    assert(out@ =~= s3 + crate::text::decimal(diff.unchanged as nat) + " unchanged"@);
    assert(out@ =~= diff_text(
        memory_views(diff.added@),
        memory_views(diff.removed@),
        modified_views(diff.modified@),
        diff.unchanged as nat,
        plus@,
        minus@,
        tilde@,
    ));
    out
}

// ---------------------------------------------------------------------------
// Choosing a snapshot
// ---------------------------------------------------------------------------

/// `i` is the first place where `v` holds `q`.
pub open spec fn first_at(v: Seq<Seq<char>>, q: Seq<char>, i: int) -> bool {
    0 <= i < v.len() && v[i] == q && forall|j: int| 0 <= j < i ==> v[j] != q
}

/// `i` is the only place where an entry of `v` starts with `q`.
pub open spec fn only_prefix_at(v: Seq<Seq<char>>, q: Seq<char>, i: int) -> bool {
    &&& 0 <= i < v.len()
    &&& crate::text::has_prefix(v[i], q)
    &&& forall|j: int| 0 <= j < v.len() && j != i ==> !crate::text::has_prefix(#[trigger] v[j], q)
}

/// The ids of some snapshots.
pub open spec fn snapshot_ids(s: Seq<Snapshot>) -> Seq<Seq<char>> {
    s.map_values(|x: Snapshot| x.id@)
}

/// The names of some snapshots.
pub open spec fn snapshot_names(s: Seq<Snapshot>) -> Seq<Seq<char>> {
    s.map_values(|x: Snapshot| x.name@)
}

/// The first place of `q` in `v`.
fn first_equal(v: &Vec<String>, q: &str) -> (r: Option<usize>)
    ensures
        match r {
            Some(i) => first_at(strs(v@), q@, i as int),
            None => !strs(v@).contains(q@),
        },
{
    let mut i: usize = 0;
    while i < v.len()
        invariant
            i <= v.len(),
            forall|j: int| 0 <= j < i ==> strs(v@)[j] != q@,
        decreases v.len() - i,
    {
        if str_eq(v[i].as_str(), q) {
            return Some(i);
        }
        i = i + 1;
    }
    None
}

/// The snapshot that `id_or_name` names: the first whose id it is; else the first
/// whose name it is; else the one snapshot whose id starts with it, if exactly one
/// does.
pub fn find_snapshot(snapshots: &[Snapshot], id_or_name: &str) -> (r: Option<usize>)
    ensures
        match r {
            Some(i) => {
                ||| first_at(snapshot_ids(snapshots@), id_or_name@, i as int)
                ||| (!snapshot_ids(snapshots@).contains(id_or_name@) && first_at(
                    snapshot_names(snapshots@),
                    id_or_name@,
                    i as int,
                ))
                ||| (!snapshot_ids(snapshots@).contains(id_or_name@) && !snapshot_names(snapshots@).contains(
                    id_or_name@,
                ) && only_prefix_at(snapshot_ids(snapshots@), id_or_name@, i as int))
            },
            None => {
                &&& !snapshot_ids(snapshots@).contains(id_or_name@)
                &&& !snapshot_names(snapshots@).contains(id_or_name@)
                &&& forall|i: int| !only_prefix_at(snapshot_ids(snapshots@), id_or_name@, i)
            },
        },
{
    let mut ids: Vec<String> = Vec::new();
    let mut names: Vec<String> = Vec::new();
    let mut i: usize = 0;
    while i < snapshots.len()
        invariant
            i <= snapshots.len(),
            strs(ids@) == snapshot_ids(snapshots@).take(i as int),
            strs(names@) == snapshot_names(snapshots@).take(i as int),
        decreases snapshots.len() - i,
    {
        let ghost (pi, pn) = (strs(ids@), strs(names@));
        ids.push(snapshots[i].id.clone());
        names.push(snapshots[i].name.clone());
        assert(strs(ids@) =~= pi.push(snapshots@[i as int].id@));
        assert(strs(names@) =~= pn.push(snapshots@[i as int].name@));
        assert(snapshot_ids(snapshots@).take(i + 1) =~= snapshot_ids(snapshots@).take(i as int).push(snapshots@[i as int].id@));
        assert(snapshot_names(snapshots@).take(i + 1) =~= snapshot_names(snapshots@).take(i as int).push(snapshots@[i as int].name@));
        i = i + 1;
    }
    assert(strs(ids@) =~= snapshot_ids(snapshots@));
    assert(strs(names@) =~= snapshot_names(snapshots@));
    match first_equal(&ids, id_or_name) {
        Some(i) => {
            return Some(i);
        },
        None => {},
    }
    match first_equal(&names, id_or_name) {
        Some(i) => {
            return Some(i);
        },
        None => {},
    }
    let mut found: Option<usize> = None;
    let mut count: usize = 0;
    let mut k: usize = 0;
    while k < ids.len()
        invariant
            k <= ids.len(),
            strs(ids@) == snapshot_ids(snapshots@),
            count <= k,
            count == 0 ==> (found is None && forall|j: int| 0 <= j < k ==> !crate::text::has_prefix(
                #[trigger] strs(ids@)[j],
                id_or_name@,
            )),
            count == 1 ==> (found matches Some(f) && f < k && crate::text::has_prefix(strs(ids@)[f as int], id_or_name@)
                && forall|j: int| 0 <= j < k && j != f ==> !crate::text::has_prefix(#[trigger] strs(ids@)[j], id_or_name@)),
            count >= 2 ==> (exists|a: int, b: int| 0 <= a < b < k && crate::text::has_prefix(#[trigger] strs(ids@)[a], id_or_name@)
                && crate::text::has_prefix(#[trigger] strs(ids@)[b], id_or_name@)),
        decreases ids.len() - k,
    {
        if str_starts_with(ids[k].as_str(), id_or_name) {
            if count == 1 {
                let f = found.unwrap();
                assert(crate::text::has_prefix(strs(ids@)[f as int], id_or_name@) && crate::text::has_prefix(strs(ids@)[k as int], id_or_name@));
            }
            if count < 2 {
                count = count + 1;
            }
            found = Some(k);
        }
        k = k + 1;
    }
    if count == 1 {
        found
    } else {
        proof {
            if count >= 2 {
                assert forall|i: int| !only_prefix_at(snapshot_ids(snapshots@), id_or_name@, i) by {
                    let (a, b) = choose|a: int, b: int| 0 <= a < b < ids.len() && crate::text::has_prefix(#[trigger] strs(ids@)[a], id_or_name@)
                        && crate::text::has_prefix(#[trigger] strs(ids@)[b], id_or_name@);
                    if only_prefix_at(snapshot_ids(snapshots@), id_or_name@, i) {
                        if i != a {
                            assert(!crate::text::has_prefix(strs(ids@)[a], id_or_name@));
                        } else {
                            assert(!crate::text::has_prefix(strs(ids@)[b], id_or_name@));
                        }
                    }
                }
            }
        }
        None
    }
}

} // verus!
