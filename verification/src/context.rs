//! The project's memories written as context for an AI agent: one section per kind,
//! one line per memory.

use vstd::prelude::*;
use crate::text::{strs, join, join_strings, append_str, has_sub, occurs_at};
use crate::types::{Memory, MemoryView, MemoryKind, memory_views};
use crate::store::{MemoryStore, first_n, recent_first, law_recent_first_orders, lemma_recent_first_len};

verus! {

/// The line of one memory: its key, its tags in brackets when it has any, and its content.
pub open spec fn context_entry(m: MemoryView) -> Seq<char> {
    if m.tags.len() == 0 {
        "- "@ + m.key + ": "@ + m.content
    } else {
        "- "@ + m.key + " ["@ + join(m.tags, ", "@) + "]: "@ + m.content
    }
}

/// The lines of the memories of one kind, in order.
pub open spec fn kind_entries(ms: Seq<MemoryView>, k: MemoryKind) -> Seq<Seq<char>> {
    ms.filter(|m: MemoryView| m.kind == k).map_values(|m: MemoryView| context_entry(m))
}

/// A section: its heading and lines followed by `tail`, or nothing when it has no lines.
pub open spec fn section(title: Seq<char>, lines: Seq<Seq<char>>, tail: Seq<char>) -> Seq<char> {
    if lines.len() > 0 {
        "## "@ + title + "\n"@ + join(lines, "\n"@) + tail
    } else {
        seq![]
    }
}

/// The text given when there are no memories.
pub open spec fn no_context_text() -> Seq<char> {
    "No project memories stored. This project has no saved conventions, patterns, or decisions."@
}

/// The context text of a list of memories: conventions, patterns, decisions,
/// preferences and context, each section in the order of the list.
pub open spec fn context_text(ms: Seq<MemoryView>) -> Seq<char> {
    if ms.len() == 0 {
        no_context_text()
    } else {
        "# Project Memory Context\n\n"@
            + section("Conventions"@, kind_entries(ms, MemoryKind::Convention), "\n\n"@)
            + section("Patterns"@, kind_entries(ms, MemoryKind::Pattern), "\n\n"@)
            + section("Decisions"@, kind_entries(ms, MemoryKind::Decision), "\n\n"@)
            + section("Preferences"@, kind_entries(ms, MemoryKind::Preference), "\n\n"@)
            + section("Context"@, kind_entries(ms, MemoryKind::Context), "\n"@)
    }
}

/// The line of one memory.
fn entry_line(m: &Memory) -> (r: String)
    ensures
        r@ == context_entry(m@),
{
    let mut r = "- ".to_owned();
    append_str(&mut r, m.key.as_str());
    if m.tags.len() == 0 {
        append_str(&mut r, ": ");
    } else {
        append_str(&mut r, " [");
        let t = join_strings(m.tags.as_slice(), ", ");
        append_str(&mut r, t.as_str());
        append_str(&mut r, "]: ");
    }
    append_str(&mut r, m.content.as_str());
    r
}

/// The lines of the memories of one kind.
fn lines_of_kind(memories: &[Memory], k: MemoryKind) -> (r: Vec<String>)
    ensures
        strs(r@) == kind_entries(memory_views(memories@), k),
{
    let ghost s = memory_views(memories@);
    let ghost f = |m: MemoryView| m.kind == k;
    let mut r: Vec<String> = Vec::new();
    let mut i: usize = 0;
    assert(s.take(0) =~= Seq::<MemoryView>::empty());
    assert(strs(r@) =~= s.take(0).filter(f).map_values(|m: MemoryView| context_entry(m)));
    while i < memories.len()
        invariant
            i <= memories.len(),
            s == memory_views(memories@),
            f == (|m: MemoryView| m.kind == k),
            strs(r@) == s.take(i as int).filter(f).map_values(|m: MemoryView| context_entry(m)),
        decreases memories.len() - i,
    {
        assert(s.take(i + 1).drop_last() =~= s.take(i as int));
        assert(s.take(i + 1).last() == memories@[i as int]@);
        reveal_with_fuel(Seq::filter, 1);
        if memories[i].kind == k {
            let ghost before = strs(r@);
            let l = entry_line(&memories[i]);
            r.push(l);
            assert(strs(r@) =~= before.push(context_entry(memories@[i as int]@)));
            assert(s.take(i + 1).filter(f) =~= s.take(i as int).filter(f).push(memories@[i as int]@));
            assert(strs(r@) =~= s.take(i + 1).filter(f).map_values(|m: MemoryView| context_entry(m)));
        } else {
            assert(s.take(i + 1).filter(f) =~= s.take(i as int).filter(f));
        }
        i = i + 1;
    }
    assert(s.take(memories.len() as int) =~= s);
    r
}

/// Appends a section.
fn push_section(out: &mut String, title: &str, lines: &Vec<String>, tail: &str)
    ensures
        final(out)@ == old(out)@ + section(title@, strs(lines@), tail@),
{
    if lines.len() > 0 {
        append_str(out, "## ");
        append_str(out, title);
        append_str(out, "\n");
        let j = join_strings(lines.as_slice(), "\n");
        append_str(out, j.as_str());
        append_str(out, tail);
    } else {
        assert(old(out)@ + Seq::<char>::empty() =~= old(out)@);
    }
}

/// The context text of the given memories.
pub fn context_of(memories: &[Memory]) -> (r: String)
    ensures
        r@ == context_text(memory_views(memories@)),
{
    if memories.len() == 0 {
        return "No project memories stored. This project has no saved conventions, patterns, or decisions.".to_owned();
    }
    let conventions = lines_of_kind(memories, MemoryKind::Convention);
    let patterns = lines_of_kind(memories, MemoryKind::Pattern);
    let decisions = lines_of_kind(memories, MemoryKind::Decision);
    let preferences = lines_of_kind(memories, MemoryKind::Preference);
    let contexts = lines_of_kind(memories, MemoryKind::Context);
    let mut out = "# Project Memory Context\n\n".to_owned();
    push_section(&mut out, "Conventions", &conventions, "\n\n");
    push_section(&mut out, "Patterns", &patterns, "\n\n");
    push_section(&mut out, "Decisions", &decisions, "\n\n");
    push_section(&mut out, "Preferences", &preferences, "\n\n");
    push_section(&mut out, "Context", &contexts, "\n");
    out
}

/// The context text of the thousand most recently updated memories of the store.
pub fn memory_context(store: &MemoryStore) -> (r: Result<String, String>)
    ensures
        r matches Ok(s) && s@ == context_text(first_n(recent_first(store.memories()), 1000)),
        r matches Ok(s) ==> (store.memories().len() <= 1000 ==> forall|i: int| 0 <= i < store.memories().len()
            ==> has_sub(s@, (#[trigger] store.memories()[i]).content) && has_sub(s@, store.memories()[i].key)),
{
    proof {
        let ms = store.memories();
        if ms.len() <= 1000 {
            assert forall|i: int| 0 <= i < ms.len() implies has_sub(
                context_text(first_n(recent_first(ms), 1000)), (#[trigger] ms[i]).content)
                && has_sub(context_text(first_n(recent_first(ms), 1000)), ms[i].key) by {
                assert(ms.contains(ms[i]));
                law_context_shows_every_memory(ms, ms[i]);
            }
        }
    }
    match store.list(None, 1000) {
        Ok(memories) => Ok(context_of(memories.as_slice())),
        Err(_) => Err("the store could not be read".to_owned()),
    }
}

/// Text around an occurrence does not hide it.
proof fn lemma_sub_in_concat(a: Seq<char>, b: Seq<char>, p: Seq<char>)
    requires
        has_sub(a, p) || has_sub(b, p),
    ensures
        has_sub(a + b, p),
{
    if has_sub(a, p) {
        let i = choose|i: int| occurs_at(a, p, i);
        assert((a + b).subrange(i, i + p.len()) =~= a.subrange(i, i + p.len()));
        assert(occurs_at(a + b, p, i));
    } else {
        let i = choose|i: int| occurs_at(b, p, i);
        assert((a + b).subrange(a.len() + i, a.len() + i + p.len()) =~= b.subrange(i, i + p.len()));
        assert(occurs_at(a + b, p, a.len() + i));
    }
}

/// A text occurs in itself.
proof fn lemma_sub_self(p: Seq<char>)
    ensures
        has_sub(p, p),
{
    assert(p.subrange(0, p.len() as int) =~= p);
    assert(occurs_at(p, p, 0));
}

/// Each piece of a join occurs in it.
proof fn lemma_join_has(list: Seq<Seq<char>>, sep: Seq<char>, i: int)
    requires
        0 <= i < list.len(),
    ensures
        has_sub(join(list, sep), list[i]),
    decreases list.len(),
{
    lemma_sub_self(list[i]);
    if list.len() > 1 {
        let d = list.drop_last();
        if i == list.len() - 1 {
            lemma_sub_in_concat(join(d, sep) + sep, list.last(), list[i]);
        } else {
            lemma_join_has(d, sep, i);
            assert(d[i] == list[i]);
            lemma_sub_in_concat(join(d, sep), sep, list[i]);
            lemma_sub_in_concat(join(d, sep) + sep, list.last(), list[i]);
        }
    }
}

/// A line among a section's lines occurs in the section.
proof fn lemma_section_has(title: Seq<char>, lines: Seq<Seq<char>>, tail: Seq<char>, i: int)
    requires
        0 <= i < lines.len(),
    ensures
        has_sub(section(title, lines, tail), lines[i]),
{
    lemma_join_has(lines, "\n"@, i);
    lemma_sub_in_concat("## "@ + title + "\n"@, join(lines, "\n"@), lines[i]);
    lemma_sub_in_concat("## "@ + title + "\n"@ + join(lines, "\n"@), tail, lines[i]);
}

/// A memory of the store shows in the context, when the store holds at most a
/// thousand memories: its line stands in the section of its kind.
pub proof fn law_stored_memory_in_context(ms: Seq<MemoryView>, m: MemoryView)
    requires
        ms.contains(m),
        ms.len() <= 1000,
    ensures
        has_sub(context_text(first_n(recent_first(ms), 1000)), context_entry(m)),
{
    broadcast use vstd::seq_lib::group_to_multiset_ensures;
    law_recent_first_orders(ms);
    lemma_recent_first_len(ms);
    let r = recent_first(ms);
    assert(first_n(r, 1000) == r);
    assert(ms.to_multiset().count(m) > 0);
    assert(r.contains(m));
    let i = choose|i: int| 0 <= i < r.len() && r[i] == m;
    let f = |x: MemoryView| x.kind == m.kind;
    r.lemma_filter_contains(f, i);
    let fl = r.filter(f);
    let j = choose|j: int| 0 <= j < fl.len() && fl[j] == m;
    let lines = fl.map_values(|x: MemoryView| context_entry(x));
    assert(lines[j] == context_entry(m));
    assert(kind_entries(r, m.kind) == lines);
    let e = context_entry(m);
    let s1 = section("Conventions"@, kind_entries(r, MemoryKind::Convention), "\n\n"@);
    let s2 = section("Patterns"@, kind_entries(r, MemoryKind::Pattern), "\n\n"@);
    let s3 = section("Decisions"@, kind_entries(r, MemoryKind::Decision), "\n\n"@);
    let s4 = section("Preferences"@, kind_entries(r, MemoryKind::Preference), "\n\n"@);
    let s5 = section("Context"@, kind_entries(r, MemoryKind::Context), "\n"@);
    let h = "# Project Memory Context\n\n"@;
    match m.kind {
        MemoryKind::Convention => {
            lemma_section_has("Conventions"@, lines, "\n\n"@, j);
            lemma_sub_in_concat(h, s1, e);
            lemma_sub_in_concat(h + s1, s2, e);
            lemma_sub_in_concat(h + s1 + s2, s3, e);
            lemma_sub_in_concat(h + s1 + s2 + s3, s4, e);
            lemma_sub_in_concat(h + s1 + s2 + s3 + s4, s5, e);
        },
        MemoryKind::Pattern => {
            lemma_section_has("Patterns"@, lines, "\n\n"@, j);
            lemma_sub_in_concat(h + s1, s2, e);
            lemma_sub_in_concat(h + s1 + s2, s3, e);
            lemma_sub_in_concat(h + s1 + s2 + s3, s4, e);
            lemma_sub_in_concat(h + s1 + s2 + s3 + s4, s5, e);
        },
        MemoryKind::Decision => {
            lemma_section_has("Decisions"@, lines, "\n\n"@, j);
            lemma_sub_in_concat(h + s1 + s2, s3, e);
            lemma_sub_in_concat(h + s1 + s2 + s3, s4, e);
            lemma_sub_in_concat(h + s1 + s2 + s3 + s4, s5, e);
        },
        MemoryKind::Preference => {
            lemma_section_has("Preferences"@, lines, "\n\n"@, j);
            lemma_sub_in_concat(h + s1 + s2 + s3, s4, e);
            lemma_sub_in_concat(h + s1 + s2 + s3 + s4, s5, e);
        },
        MemoryKind::Context => {
            lemma_section_has("Context"@, lines, "\n"@, j);
            lemma_sub_in_concat(h + s1 + s2 + s3 + s4, s5, e);
        },
    }
}

/// What occurs in an occurrence occurs in the whole.
proof fn lemma_sub_trans(a: Seq<char>, b: Seq<char>, c: Seq<char>)
    requires
        has_sub(a, b),
        has_sub(b, c),
    ensures
        has_sub(a, c),
{
    let i = choose|i: int| occurs_at(a, b, i);
    let j = choose|j: int| occurs_at(b, c, j);
    assert(a.subrange(i + j, i + j + c.len()) =~= b.subrange(j, j + c.len()));
    assert(occurs_at(a, c, i + j));
}

/// A memory's line starts with a dash and its key and ends with its content; an
/// untagged memory's line is `- key: content`, a tagged one's `- key [tags]: content`.
pub proof fn law_entry_shows_key_and_content(m: MemoryView)
    ensures
        has_prefix_of(context_entry(m), "- "@ + m.key),
        has_sub(context_entry(m), m.key),
        has_sub(context_entry(m), m.content),
        m.tags.len() == 0 ==> context_entry(m) == "- "@ + m.key + ": "@ + m.content,
        m.tags.len() > 0 ==> context_entry(m) == "- "@ + m.key + " ["@ + join(m.tags, ", "@) + "]: "@ + m.content,
{
    let e = context_entry(m);
    let d = "- "@ + m.key;
    let mid = if m.tags.len() == 0 { ": "@ } else { " ["@ + join(m.tags, ", "@) + "]: "@ };
    assert(e == d + mid + m.content);
    assert(has_sub(e, m.content)) by {
        lemma_sub_self(m.content);
        lemma_sub_in_concat(d + mid, m.content, m.content);
    }
    assert(has_sub(e, m.key)) by {
        lemma_sub_self(m.key);
        lemma_sub_in_concat("- "@, m.key, m.key);
        lemma_sub_in_concat(d, mid, m.key);
        lemma_sub_in_concat(d + mid, m.content, m.key);
    }
    assert(has_prefix_of(e, d)) by {
        assert(e.subrange(0, d.len() as int) =~= d);
    }
}

/// `p` begins `s`.
pub open spec fn has_prefix_of(s: Seq<char>, p: Seq<char>) -> bool {
    p.len() <= s.len() && s.subrange(0, p.len() as int) == p
}

/// The content and the key of every memory of the store show in the context, when
/// the store holds at most a thousand memories.
pub proof fn law_context_shows_every_memory(ms: Seq<MemoryView>, m: MemoryView)
    requires
        ms.contains(m),
        ms.len() <= 1000,
    ensures
        has_sub(context_text(first_n(recent_first(ms), 1000)), m.content),
        has_sub(context_text(first_n(recent_first(ms), 1000)), m.key),
{
    law_stored_memory_in_context(ms, m);
    law_entry_shows_key_and_content(m);
    lemma_sub_trans(context_text(first_n(recent_first(ms), 1000)), context_entry(m), m.content);
    lemma_sub_trans(context_text(first_n(recent_first(ms), 1000)), context_entry(m), m.key);
}

} // verus!
