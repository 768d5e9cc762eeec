//! The web dashboard's page: figures, kind and tag badges, and a card per memory.

use vstd::prelude::*;
use crate::text::{strs, decimal, join, join_strings, append_str, push_decimal, byte_cut, fits_at, byte_prefix, owned};
use crate::types::{Memory, MemoryView, MemoryKind, memory_views, kind_name};
use crate::store::{MemoryStore, TagInfo, first_n, recent_first, is_kind_census};

verus! {

/// The page up to the number of memories: head, styles and the first figure.
pub const PAGE_TOP: &'static str = "<!DOCTYPE html>\n<html lang=\"en\">\n<head>\n    <meta charset=\"UTF-8\">\n    <meta name=\"viewport\" content=\"width=device-width, initial-scale=1.0\">\n    <title>project-memory dashboard</title>\n    <style>\n        * { margin: 0; padding: 0; box-sizing: border-box; }\n        body { font-family: -apple-system, BlinkMacSystemFont, 'Segoe UI', sans-serif; background: #0f172a; color: #e2e8f0; padding: 2rem; }\n        h1 { color: #f8fafc; margin-bottom: 1rem; }\n        .stats { display: flex; gap: 1rem; margin-bottom: 2rem; flex-wrap: wrap; }\n        .stat { background: #1e293b; padding: 1rem 1.5rem; border-radius: 8px; }\n        .stat-value { font-size: 2rem; font-weight: bold; color: #38bdf8; }\n        .stat-label { color: #94a3b8; font-size: 0.875rem; }\n        .filter { margin-bottom: 1.5rem; }\n        .filter input { background: #1e293b; border: 1px solid #334155; color: #e2e8f0; padding: 0.5rem 1rem; border-radius: 6px; width: 100%; max-width: 400px; font-size: 1rem; }\n        .filter input:focus { outline: none; border-color: #38bdf8; }\n        .badges { margin-bottom: 1.5rem; }\n        .badge { display: inline-block; padding: 0.25rem 0.75rem; border-radius: 9999px; font-size: 0.75rem; font-weight: 600; color: white; }\n        .tag { display: inline-block; padding: 0.125rem 0.5rem; background: #334155; border-radius: 4px; font-size: 0.75rem; margin: 0.125rem; }\n        .cards { display: grid; gap: 1rem; }\n        .card { background: #1e293b; padding: 1rem 1.5rem; border-radius: 8px; border-left: 4px solid #334155; }\n        .card-header { display: flex; align-items: center; gap: 0.75rem; margin-bottom: 0.5rem; }\n        .key { font-weight: 600; color: #f8fafc; }\n        .id { color: #64748b; font-size: 0.75rem; font-family: monospace; }\n        .content { color: #cbd5e1; line-height: 1.6; }\n        .tags { margin-top: 0.5rem; }\n        .empty { text-align: center; padding: 3rem; color: #64748b; }\n    </style>\n</head>\n<body>\n    <h1>project-memory</h1>\n    <div class=\"stats\">\n        <div class=\"stat\"><div class=\"stat-value\">";

/// Between the number of memories and the number of tags.
pub const AFTER_COUNT: &'static str = "</div><div class=\"stat-label\">memories</div></div>\n        <div class=\"stat\"><div class=\"stat-value\">";

/// Between the number of tags and the kind badges.
pub const AFTER_TAG_TOTAL: &'static str = "</div><div class=\"stat-label\">tags</div></div>\n    </div>\n    <div class=\"badges\">";

/// Between the kind badges and the tag badges.
pub const BETWEEN_BADGES: &'static str = "</div>\n    <div class=\"badges\">";

/// Between the tag badges and the cards: the filter box.
pub const BEFORE_CARDS: &'static str = "</div>\n    <div class=\"filter\"><input type=\"text\" id=\"search\" placeholder=\"Filter memories...\" oninput=\"filterCards()\"></div>\n    <div class=\"cards\" id=\"cards\">";

/// After the cards: the filtering script and the end of the page.
pub const PAGE_END: &'static str = "</div>\n    <script>\n        function filterCards() {\n            const q = document.getElementById('search').value.toLowerCase();\n            document.querySelectorAll('.card').forEach(card => {\n                const text = card.textContent.toLowerCase();\n                card.style.display = text.includes(q) ? '' : 'none';\n            });\n        }\n    </script>\n</body>\n</html>";

/// The colour of a kind's badge and card.
pub open spec fn kind_color(k: MemoryKind) -> Seq<char> {
    match k {
        MemoryKind::Convention => "#06b6d4"@,
        MemoryKind::Pattern => "#22c55e"@,
        MemoryKind::Decision => "#eab308"@,
        MemoryKind::Preference => "#a855f7"@,
        MemoryKind::Context => "#3b82f6"@,
    }
}

fn color_of(k: MemoryKind) -> (r: &'static str)
    ensures
        r@ == kind_color(k),
{
    match k {
        MemoryKind::Convention => "#06b6d4",
        MemoryKind::Pattern => "#22c55e",
        MemoryKind::Decision => "#eab308",
        MemoryKind::Preference => "#a855f7",
        MemoryKind::Context => "#3b82f6",
    }
}

/// The badge of one kind with its count.
pub open spec fn kind_badge(k: MemoryKind, n: usize) -> Seq<char> {
    "<span class=\"badge\" style=\"background:"@ + kind_color(k) + "\">"@ + kind_name(k) + ": "@
        + decimal(n as nat) + "</span> "@
}

/// The badges of the first `i` kind counts.
pub open spec fn kind_badges(by: Seq<(MemoryKind, usize)>, i: int) -> Seq<char>
    decreases i,
{
    if i <= 0 || i > by.len() {
        Seq::empty()
    } else {
        kind_badges(by, i - 1) + kind_badge(by[i - 1].0, by[i - 1].1)
    }
}

/// The badge of one tag with its count.
pub open spec fn tag_badge(t: (Seq<char>, usize)) -> Seq<char> {
    "<span class=\"tag\">"@ + t.0 + " ("@ + decimal(t.1 as nat) + ")</span> "@
}

/// The badges of the first `i` tags.
pub open spec fn tag_badges(tags: Seq<(Seq<char>, usize)>, i: int) -> Seq<char>
    decreases i,
{
    if i <= 0 || i > tags.len() {
        Seq::empty()
    } else {
        tag_badges(tags, i - 1) + tag_badge(tags[i - 1])
    }
}

/// A tag as a small label.
pub open spec fn tag_label(t: Seq<char>) -> Seq<char> {
    "<span class=\"tag\">"@ + t + "</span>"@
}

/// The card of one memory; its id shows by its first eight bytes.
pub open spec fn memory_card(m: MemoryView) -> Seq<char> {
    "<div class=\"card\" data-kind=\""@ + kind_name(m.kind) + "\" data-tags=\""@ + join(m.tags, ","@)
        + "\">\n                <div class=\"card-header\">\n                    <span class=\"badge\" style=\"background:"@
        + kind_color(m.kind) + "\">"@ + kind_name(m.kind) + "</span>\n                    <span class=\"key\">"@ + m.key
        + "</span>\n                    <span class=\"id\">"@ + byte_cut(m.id, 8)
        + "</span>\n                </div>\n                <div class=\"content\">"@ + m.content
        + "</div>\n                <div class=\"tags\">"@ + join(m.tags.map_values(|t: Seq<char>| tag_label(t)), " "@)
        + "</div>\n            </div>"@
}

/// The cards of the first `i` memories.
pub open spec fn memory_cards(ms: Seq<MemoryView>, i: int) -> Seq<char>
    decreases i,
{
    if i <= 0 || i > ms.len() {
        Seq::empty()
    } else {
        memory_cards(ms, i - 1) + memory_card(ms[i - 1])
    }
}

/// The plain values of tag counts.
pub open spec fn tag_counts(tags: Seq<TagInfo>) -> Seq<(Seq<char>, usize)> {
    tags.map_values(|t: TagInfo| (t.tag@, t.count))
}

/// The dashboard page: the number of memories and of tags, a badge per kind count, a
/// badge for each of the first twenty tags, and a card per memory.
pub open spec fn dashboard_text(
    ms: Seq<MemoryView>,
    count: usize,
    tags: Seq<(Seq<char>, usize)>,
    by: Seq<(MemoryKind, usize)>,
) -> Seq<char> {
    PAGE_TOP@ + decimal(count as nat) + AFTER_COUNT@ + decimal(tags.len()) + AFTER_TAG_TOTAL@
        + kind_badges(by, by.len() as int) + BETWEEN_BADGES@ + tag_badges(tags, if tags.len() < 20 { tags.len() as int } else { 20 })
        + BEFORE_CARDS@ + memory_cards(ms, ms.len() as int) + PAGE_END@
}

/// Whether an id can show by its first eight bytes.
pub open spec fn id_shows(id: Seq<char>) -> bool {
    vstd::utf8::encode_utf8(id).len() >= 8 && fits_at(id, 8)
}

fn tag_labels(tags: &Vec<String>) -> (r: String)
    ensures
        r@ == join(strs(tags@).map_values(|t: Seq<char>| tag_label(t)), " "@),
{
    let mut labels: Vec<String> = Vec::new();
    let mut i: usize = 0;
    while i < tags.len()
        invariant
            i <= tags.len(),
            strs(labels@) == strs(tags@).take(i as int).map_values(|t: Seq<char>| tag_label(t)),
        decreases tags.len() - i,
    {
        let mut l = owned("<span class=\"tag\">");
        append_str(&mut l, tags[i].as_str());
        append_str(&mut l, "</span>");
        let ghost prev = strs(labels@);
        labels.push(l);
        assert(strs(labels@) =~= prev.push(tag_label(strs(tags@)[i as int])));
        assert(strs(tags@).take(i + 1).map_values(|t: Seq<char>| tag_label(t)) =~= strs(tags@).take(i as int).map_values(
            |t: Seq<char>| tag_label(t),
        ).push(tag_label(strs(tags@)[i as int])));
        i = i + 1;
    }
    assert(strs(tags@).take(tags.len() as int) =~= strs(tags@));
    join_strings(labels.as_slice(), " ")
}

fn push_card(out: &mut String, m: &Memory)
    requires
        id_shows(m.id@),
    ensures
        final(out)@ == old(out)@ + memory_card(m@),
{
    let kind = m.kind.to_string();
    append_str(out, "<div class=\"card\" data-kind=\"");
    append_str(out, kind.as_str());
    append_str(out, "\" data-tags=\"");
    append_str(out, join_strings(m.tags.as_slice(), ",").as_str());
    append_str(out, "\">\n                <div class=\"card-header\">\n                    <span class=\"badge\" style=\"background:");
    append_str(out, color_of(m.kind));
    append_str(out, "\">");
    append_str(out, kind.as_str());
    append_str(out, "</span>\n                    <span class=\"key\">");
    append_str(out, m.key.as_str());
    append_str(out, "</span>\n                    <span class=\"id\">");
    append_str(out, byte_prefix(m.id.as_str(), 8).as_str());
    append_str(out, "</span>\n                </div>\n                <div class=\"content\">");
    append_str(out, m.content.as_str());
    append_str(out, "</div>\n                <div class=\"tags\">");
    append_str(out, tag_labels(&m.tags).as_str());
    append_str(out, "</div>\n            </div>");
}

/// The dashboard page of some memories (most recent first), their number, the tag
/// counts and the kind counts.
pub fn dashboard_page(memories: &[Memory], count: usize, tags: &[TagInfo], by_kind: &[(MemoryKind, usize)]) -> (r: String)
    requires
        forall|i: int| 0 <= i < memories.len() ==> id_shows(#[trigger] memories@[i].id@),
    ensures
        r@ == dashboard_text(memory_views(memories@), count, tag_counts(tags@), by_kind@),
{
    let mut r = owned(PAGE_TOP);
    push_decimal(&mut r, count);
    append_str(&mut r, AFTER_COUNT);
    push_decimal(&mut r, tags.len());
    append_str(&mut r, AFTER_TAG_TOTAL);
    let ghost base = r@;
    let mut i: usize = 0;
    while i < by_kind.len()
        invariant
            i <= by_kind.len(),
            r@ == base + kind_badges(by_kind@, i as int),
        decreases by_kind.len() - i,
    {
        let (k, n) = by_kind[i];
        append_str(&mut r, "<span class=\"badge\" style=\"background:");
        append_str(&mut r, color_of(k));
        append_str(&mut r, "\">");
        append_str(&mut r, k.to_string().as_str());
        append_str(&mut r, ": ");
        push_decimal(&mut r, n);
        append_str(&mut r, "</span> ");
        assert(r@ =~= base + kind_badges(by_kind@, i + 1));
        i = i + 1;
    }
    append_str(&mut r, BETWEEN_BADGES);
    let ghost tv = tag_counts(tags@);
    let shown: usize = if tags.len() < 20 { tags.len() } else { 20 };
    let ghost base2 = r@;
    let mut j: usize = 0;
    while j < shown
        invariant
            j <= shown <= tags.len(),
            tv == tag_counts(tags@),
            r@ == base2 + tag_badges(tv, j as int),
        decreases shown - j,
    {
        append_str(&mut r, "<span class=\"tag\">");
        append_str(&mut r, tags[j].tag.as_str());
        append_str(&mut r, " (");
        push_decimal(&mut r, tags[j].count);
        append_str(&mut r, ")</span> ");
        assert(tv[j as int] == (tags@[j as int].tag@, tags@[j as int].count));
        assert(r@ =~= base2 + tag_badges(tv, j + 1));
        j = j + 1;
    }
    append_str(&mut r, BEFORE_CARDS);
    let ghost ms = memory_views(memories@);
    let ghost base3 = r@;
    let mut k: usize = 0;
    while k < memories.len()
        invariant
            k <= memories.len(),
            ms == memory_views(memories@),
            forall|i: int| 0 <= i < memories.len() ==> id_shows(#[trigger] memories@[i].id@),
            r@ == base3 + memory_cards(ms, k as int),
        decreases memories.len() - k,
    {
        let ghost before = r@;
        push_card(&mut r, &memories[k]);
        assert(ms[k as int] == memories@[k as int]@);
        assert(r@ =~= base3 + memory_cards(ms, k + 1));
        k = k + 1;
    }
    append_str(&mut r, PAGE_END);
    r
}

/// The dashboard page of a store: its memories (most recent first, up to ten
/// thousand), their number, the tag counts and the kind counts.
pub fn dashboard(store: &MemoryStore) -> (r: String)
    requires
        store.wf(),
        forall|i: int| 0 <= i < first_n(recent_first(store.memories()), 10000).len()
            ==> id_shows(#[trigger] first_n(recent_first(store.memories()), 10000)[i].id),
    ensures
        exists|tags: Seq<(Seq<char>, usize)>, by: Seq<(MemoryKind, usize)>| {
            &&& crate::census::is_census(
                crate::analytics::all_tags(first_n(recent_first(store.memories()), 10000), first_n(recent_first(store.memories()), 10000).len() as int),
                tags,
            )
            &&& crate::census::most_first(tags)
            &&& is_kind_census(store.memories(), by)
            &&& r@ == dashboard_text(first_n(recent_first(store.memories()), 10000), store.memories().len() as usize, tags, by)
        },
{
    let memories = match store.list(None, 10000) {
        Ok(v) => v,
        Err(_) => Vec::new(),
    };
    let count = match store.count() {
        Ok(n) => n,
        Err(_) => 0,
    };
    let tags = match store.list_tags() {
        Ok(v) => v,
        Err(_) => Vec::new(),
    };
    let by_kind = match store.count_by_kind() {
        Ok(v) => v,
        Err(_) => Vec::new(),
    };
    proof {
        assert(crate::store::of_kind(store.memories(), None) == store.memories());
        assert(memory_views(memories@) == first_n(recent_first(store.memories()), 10000));
        assert forall|i: int| 0 <= i < memories.len() implies id_shows(#[trigger] memories@[i].id@) by {
            assert(memory_views(memories@)[i] == memories@[i]@);
            assert(id_shows(first_n(recent_first(store.memories()), 10000)[i].id));
        }
    }
    dashboard_page(memories.as_slice(), count, tags.as_slice(), by_kind.as_slice())
}

} // verus!
