//! Documents made from the memories: an HTML report, markdown exports, CSV files,
//! and generated documentation pages. Writing them to files is left to the program.

use vstd::prelude::*;
use crate::text::{strs, join, join_strings, owned, append_str, push_char, push_decimal, decimal, str_eq, other_than, strings_without};
use crate::types::{Memory, MemoryView, MemoryKind, memory_views, kind_name};
use crate::store::all_kinds;
use crate::calendar::{utc_rfc3339, rfc3339_text, utc_minute, minute_text};
use crate::runtime::now_micros;

verus! {

// ---------------------------------------------------------------------------
// Shared pieces
// ---------------------------------------------------------------------------

/// How many of the first `n` memories are of kind `k`.
pub open spec fn count_of_kind(ms: Seq<MemoryView>, k: MemoryKind, n: int) -> nat
    decreases n,
{
    if n <= 0 || n > ms.len() {
        0
    } else {
        count_of_kind(ms, k, n - 1) + if ms[n - 1].kind == k { 1nat } else { 0nat }
    }
}

/// The texts of the first `n` memories of kind `k`, each rendered by `f`.
pub open spec fn per_memory(ms: Seq<MemoryView>, k: MemoryKind, n: int, f: spec_fn(MemoryView) -> Seq<char>) -> Seq<char>
    decreases n,
{
    if n <= 0 || n > ms.len() {
        Seq::empty()
    } else {
        per_memory(ms, k, n - 1, f) + if ms[n - 1].kind == k { f(ms[n - 1]) } else { Seq::empty() }
    }
}

/// The texts of the first `j` kinds, in declaration order, each rendered by `f`.
pub open spec fn per_kind(ms: Seq<MemoryView>, j: int, f: spec_fn(Seq<MemoryView>, MemoryKind) -> Seq<char>) -> Seq<char>
    decreases j,
{
    if j <= 0 || j > 5 {
        Seq::empty()
    } else {
        per_kind(ms, j - 1, f) + f(ms, all_kinds()[j - 1])
    }
}

/// The kind at place `j` of the declaration order.
fn kind_at(j: usize) -> (k: MemoryKind)
    requires
        j < 5,
    ensures
        k == all_kinds()[j as int],
{
    match j {
        0 => MemoryKind::Convention,
        1 => MemoryKind::Pattern,
        2 => MemoryKind::Decision,
        3 => MemoryKind::Preference,
        _ => MemoryKind::Context,
    }
}

/// How many memories are of kind `k`.
fn kind_total(ms: &[Memory], k: MemoryKind) -> (c: usize)
    ensures
        c == count_of_kind(memory_views(ms@), k, ms@.len() as int),
{
    let ghost v = memory_views(ms@);
    let mut c: usize = 0;
    let mut i: usize = 0;
    while i < ms.len()
        invariant
            i <= ms.len(),
            v == memory_views(ms@),
            c == count_of_kind(v, k, i as int),
            c <= i,
        decreases ms.len() - i,
    {
        if ms[i].kind == k {
            c = c + 1;
        }
        i = i + 1;
    }
    c
}

// ---------------------------------------------------------------------------
// HTML report
// ---------------------------------------------------------------------------

/// The start of the report page, up to its title.
pub open spec fn report_head() -> Seq<char> {
    "<!DOCTYPE html>\n<html>\n<head>\n    <meta charset=\"UTF-8\">\n    <title>"@
}

/// The report page between its title and its body.
pub open spec fn report_style() -> Seq<char> {
    "</title>\n    <style>\n        body { font-family: -apple-system, sans-serif; background: #0f172a; color: #e2e8f0; padding: 2rem; max-width: 900px; margin: 0 auto; }\n        h1 { color: #f8fafc; }\n        h2 { color: #94a3b8; border-bottom: 1px solid #334155; padding-bottom: 0.5rem; }\n        .summary { margin: 1rem 0; }\n        .badge { display: inline-block; padding: 0.25rem 0.75rem; border-radius: 9999px; font-size: 0.75rem; margin-right: 0.5rem; }\n        .badge-convention { background: #06b6d4; }\n        .badge-pattern { background: #22c55e; }\n        .badge-decision { background: #eab308; }\n        .badge-preference { background: #a855f7; }\n        .badge-context { background: #3b82f6; }\n        .cards { display: grid; gap: 1rem; }\n        .card { background: #1e293b; padding: 1rem; border-radius: 8px; border-left: 4px solid; }\n        .card-convention { border-color: #06b6d4; }\n        .card-pattern { border-color: #22c55e; }\n        .card-decision { border-color: #eab308; }\n        .card-preference { border-color: #a855f7; }\n        .card-context { border-color: #3b82f6; }\n        .tags { margin-top: 0.5rem; font-size: 0.75rem; color: #94a3b8; }\n    </style>\n</head>\n<body>\n"@
}

/// The summary badge of a kind with memories.
pub open spec fn report_badge(ms: Seq<MemoryView>, k: MemoryKind) -> Seq<char> {
    let c = count_of_kind(ms, k, ms.len() as int);
    if c > 0 {
        "  <span class='badge badge-"@ + kind_name(k) + "'>"@ + kind_name(k) + ": "@ + decimal(c) + "</span>\n"@
    } else {
        Seq::empty()
    }
}

/// The card of one memory in the report.
pub open spec fn report_card(m: MemoryView) -> Seq<char> {
    "  <div class='card card-"@ + kind_name(m.kind) + "'>\n"@ + "    <h3>"@ + m.key + "</h3>\n"@ + "    <p>"@
        + m.content + "</p>\n"@ + (if m.tags.len() > 0 {
        "    <div class='tags'>"@ + join(m.tags, ", "@) + "</div>\n"@
    } else {
        Seq::empty()
    }) + "  </div>\n"@
}

/// The section of a kind with memories in the report.
pub open spec fn report_section(ms: Seq<MemoryView>, k: MemoryKind) -> Seq<char> {
    if count_of_kind(ms, k, ms.len() as int) > 0 {
        "<h2>"@ + kind_name(k) + "</h2>\n"@ + "<div class='cards'>\n"@ + per_memory(
            ms,
            k,
            ms.len() as int,
            |m: MemoryView| report_card(m),
        ) + "</div>\n"@
    } else {
        Seq::empty()
    }
}

/// The HTML report of some memories.
pub open spec fn report_page(ms: Seq<MemoryView>, title: Seq<char>) -> Seq<char> {
    let body = "<h1>"@ + title + "</h1>\n"@ + "<p>Total: "@ + decimal(ms.len()) + " memories</p>\n"@
        + "<div class='summary'>\n"@ + per_kind(ms, 5, |ms: Seq<MemoryView>, k: MemoryKind| report_badge(ms, k))
        + "</div>\n\n"@ + per_kind(ms, 5, |ms: Seq<MemoryView>, k: MemoryKind| report_section(ms, k));
    report_head() + title + report_style() + body + "\n</body>\n</html>"@
}

/// Appends the cards of the memories of one kind.
fn push_report_cards(out: &mut String, ms: &[Memory], k: MemoryKind)
    ensures
        final(out)@ == old(out)@ + per_memory(memory_views(ms@), k, ms@.len() as int, |m: MemoryView| report_card(m)),
{
    let ghost v = memory_views(ms@);
    let ghost f = |m: MemoryView| report_card(m);
    let mut i: usize = 0;
    while i < ms.len()
        invariant
            i <= ms.len(),
            v == memory_views(ms@),
            f == (|m: MemoryView| report_card(m)),
            out@ == old(out)@ + per_memory(v, k, i as int, f),
        decreases ms.len() - i,
    {
        let m = &ms[i];
        let ghost before = out@;
        if m.kind == k {
            append_str(out, "  <div class='card card-");
            append_str(out, m.kind.to_string().as_str());
            append_str(out, "'>\n");
            append_str(out, "    <h3>");
            append_str(out, m.key.as_str());
            append_str(out, "</h3>\n");
            append_str(out, "    <p>");
            append_str(out, m.content.as_str());
            append_str(out, "</p>\n");
            if m.tags.len() > 0 {
                append_str(out, "    <div class='tags'>");
                append_str(out, join_strings(m.tags.as_slice(), ", ").as_str());
                append_str(out, "</div>\n");
            }
            append_str(out, "  </div>\n");
            assert(out@ =~= before + report_card(v[i as int]));
        } else {
            assert(out@ =~= before + Seq::<char>::empty());
        }
        i = i + 1;
    }
}

/// The HTML report of some memories: a heading with the title, the total, a badge
/// with the count of each kind that has memories, and for each such kind (in
/// declaration order) a section with a card per memory: key, content and tags.
pub fn export_html_report(memories: &[Memory], title: &str) -> (r: String)
    ensures
        r@ == report_page(memory_views(memories@), title@),
{
    let ghost v = memory_views(memories@);
    let ghost badge = |ms: Seq<MemoryView>, k: MemoryKind| report_badge(ms, k);
    let ghost section = |ms: Seq<MemoryView>, k: MemoryKind| report_section(ms, k);
    let mut body = owned("<h1>");
    append_str(&mut body, title);
    append_str(&mut body, "</h1>\n");
    append_str(&mut body, "<p>Total: ");
    push_decimal(&mut body, memories.len());
    append_str(&mut body, " memories</p>\n");
    append_str(&mut body, "<div class='summary'>\n");
    let ghost b0 = body@;
    let mut j: usize = 0;
    while j < 5
        invariant
            j <= 5,
            v == memory_views(memories@),
            badge == (|ms: Seq<MemoryView>, k: MemoryKind| report_badge(ms, k)),
            body@ == b0 + per_kind(v, j as int, badge),
        decreases 5 - j,
    {
        let k = kind_at(j);
        let c = kind_total(memories, k);
        let ghost before = body@;
        if c > 0 {
            let name = k.to_string();
            append_str(&mut body, "  <span class='badge badge-");
            append_str(&mut body, name.as_str());
            append_str(&mut body, "'>");
            append_str(&mut body, name.as_str());
            append_str(&mut body, ": ");
            push_decimal(&mut body, c);
            append_str(&mut body, "</span>\n");
        }
        assert(body@ =~= before + report_badge(v, k));
        j = j + 1;
    }
    append_str(&mut body, "</div>\n\n");
    let ghost b1 = body@;
    let mut j: usize = 0;
    while j < 5
        invariant
            j <= 5,
            v == memory_views(memories@),
            section == (|ms: Seq<MemoryView>, k: MemoryKind| report_section(ms, k)),
            body@ == b1 + per_kind(v, j as int, section),
        decreases 5 - j,
    {
        let k = kind_at(j);
        let c = kind_total(memories, k);
        let ghost before = body@;
        if c > 0 {
            append_str(&mut body, "<h2>");
            append_str(&mut body, k.to_string().as_str());
            append_str(&mut body, "</h2>\n");
            append_str(&mut body, "<div class='cards'>\n");
            push_report_cards(&mut body, memories, k);
            append_str(&mut body, "</div>\n");
        }
        assert(body@ =~= before + report_section(v, k));
        j = j + 1;
    }
    let mut page = owned("<!DOCTYPE html>\n<html>\n<head>\n    <meta charset=\"UTF-8\">\n    <title>");
    append_str(&mut page, title);
    append_str(&mut page, "</title>\n    <style>\n        body { font-family: -apple-system, sans-serif; background: #0f172a; color: #e2e8f0; padding: 2rem; max-width: 900px; margin: 0 auto; }\n        h1 { color: #f8fafc; }\n        h2 { color: #94a3b8; border-bottom: 1px solid #334155; padding-bottom: 0.5rem; }\n        .summary { margin: 1rem 0; }\n        .badge { display: inline-block; padding: 0.25rem 0.75rem; border-radius: 9999px; font-size: 0.75rem; margin-right: 0.5rem; }\n        .badge-convention { background: #06b6d4; }\n        .badge-pattern { background: #22c55e; }\n        .badge-decision { background: #eab308; }\n        .badge-preference { background: #a855f7; }\n        .badge-context { background: #3b82f6; }\n        .cards { display: grid; gap: 1rem; }\n        .card { background: #1e293b; padding: 1rem; border-radius: 8px; border-left: 4px solid; }\n        .card-convention { border-color: #06b6d4; }\n        .card-pattern { border-color: #22c55e; }\n        .card-decision { border-color: #eab308; }\n        .card-preference { border-color: #a855f7; }\n        .card-context { border-color: #3b82f6; }\n        .tags { margin-top: 0.5rem; font-size: 0.75rem; color: #94a3b8; }\n    </style>\n</head>\n<body>\n");
    append_str(&mut page, body.as_str());
    append_str(&mut page, "\n</body>\n</html>");
    assert(page@ =~= report_page(v, title@));
    page
}

// ---------------------------------------------------------------------------
// Markdown export
// ---------------------------------------------------------------------------

/// The table-of-contents line of a kind with memories.
pub open spec fn toc_line(ms: Seq<MemoryView>, k: MemoryKind) -> Seq<char> {
    let c = count_of_kind(ms, k, ms.len() as int);
    if c > 0 {
        "- ["@ + kind_name(k) + "](#"@ + kind_name(k) + ") ("@ + decimal(c) + ")\n"@
    } else {
        Seq::empty()
    }
}

/// One memory in the markdown export.
pub open spec fn md_entry(m: MemoryView) -> Seq<char> {
    "### "@ + m.key + "\n\n"@ + m.content + "\n\n"@ + (if m.tags.len() > 0 {
        "*Tags:* "@ + join(m.tags, ", "@) + "\n\n"@
    } else {
        Seq::empty()
    })
}

/// The section of a kind with memories in the markdown export.
pub open spec fn md_section(ms: Seq<MemoryView>, k: MemoryKind) -> Seq<char> {
    if count_of_kind(ms, k, ms.len() as int) > 0 {
        "## "@ + kind_name(k) + "\n\n"@ + per_memory(ms, k, ms.len() as int, |m: MemoryView| md_entry(m))
    } else {
        Seq::empty()
    }
}

/// The markdown export of some memories, stamped with the time text given.
pub open spec fn markdown_export(ms: Seq<MemoryView>, title: Seq<char>, stamp: Seq<char>) -> Seq<char> {
    "# "@ + title + "\n\n"@ + "*"@ + decimal(ms.len()) + " memories*\n\n"@ + "## Table of Contents\n\n"@
        + per_kind(ms, 5, |ms: Seq<MemoryView>, k: MemoryKind| toc_line(ms, k)) + "\n---\n\n"@
        + per_kind(ms, 5, |ms: Seq<MemoryView>, k: MemoryKind| md_section(ms, k)) + "---\n\n"@
        + "*Generated: "@ + stamp + "*\n"@
}

/// Appends the markdown entries of the memories of one kind.
fn push_md_entries(out: &mut String, ms: &[Memory], k: MemoryKind)
    ensures
        final(out)@ == old(out)@ + per_memory(memory_views(ms@), k, ms@.len() as int, |m: MemoryView| md_entry(m)),
{
    let ghost v = memory_views(ms@);
    let ghost f = |m: MemoryView| md_entry(m);
    let mut i: usize = 0;
    while i < ms.len()
        invariant
            i <= ms.len(),
            v == memory_views(ms@),
            f == (|m: MemoryView| md_entry(m)),
            out@ == old(out)@ + per_memory(v, k, i as int, f),
        decreases ms.len() - i,
    {
        let m = &ms[i];
        let ghost before = out@;
        if m.kind == k {
            append_str(out, "### ");
            append_str(out, m.key.as_str());
            append_str(out, "\n\n");
            append_str(out, m.content.as_str());
            append_str(out, "\n\n");
            if m.tags.len() > 0 {
                append_str(out, "*Tags:* ");
                append_str(out, join_strings(m.tags.as_slice(), ", ").as_str());
                append_str(out, "\n\n");
            }
            assert(out@ =~= before + md_entry(v[i as int]));
        } else {
            assert(out@ =~= before + Seq::<char>::empty());
        }
        i = i + 1;
    }
}

/// The markdown export of some memories, stamped with the given time text: title,
/// total, a table of contents with the count of each kind that has memories, then a
/// section per such kind (in declaration order) with key, content and tags of each.
pub fn export_markdown_at(memories: &[Memory], title: &str, stamp: &str) -> (r: String)
    ensures
        r@ == markdown_export(memory_views(memories@), title@, stamp@),
{
    let ghost v = memory_views(memories@);
    let ghost toc = |ms: Seq<MemoryView>, k: MemoryKind| toc_line(ms, k);
    let ghost section = |ms: Seq<MemoryView>, k: MemoryKind| md_section(ms, k);
    let mut out = owned("# ");
    append_str(&mut out, title);
    append_str(&mut out, "\n\n");
    append_str(&mut out, "*");
    push_decimal(&mut out, memories.len());
    append_str(&mut out, " memories*\n\n");
    append_str(&mut out, "## Table of Contents\n\n");
    let ghost o0 = out@;
    let mut j: usize = 0;
    while j < 5
        invariant
            j <= 5,
            v == memory_views(memories@),
            toc == (|ms: Seq<MemoryView>, k: MemoryKind| toc_line(ms, k)),
            out@ == o0 + per_kind(v, j as int, toc),
        decreases 5 - j,
    {
        let k = kind_at(j);
        let c = kind_total(memories, k);
        let ghost before = out@;
        if c > 0 {
            let name = k.to_string();
            append_str(&mut out, "- [");
            append_str(&mut out, name.as_str());
            append_str(&mut out, "](#");
            append_str(&mut out, name.as_str());
            append_str(&mut out, ") (");
            push_decimal(&mut out, c);
            append_str(&mut out, ")\n");
        }
        assert(out@ =~= before + toc_line(v, k));
        j = j + 1;
    }
    append_str(&mut out, "\n---\n\n");
    let ghost o1 = out@;
    let mut j: usize = 0;
    while j < 5
        invariant
            j <= 5,
            v == memory_views(memories@),
            section == (|ms: Seq<MemoryView>, k: MemoryKind| md_section(ms, k)),
            out@ == o1 + per_kind(v, j as int, section),
        decreases 5 - j,
    {
        let k = kind_at(j);
        let c = kind_total(memories, k);
        let ghost before = out@;
        if c > 0 {
            append_str(&mut out, "## ");
            append_str(&mut out, k.to_string().as_str());
            append_str(&mut out, "\n\n");
            push_md_entries(&mut out, memories, k);
        }
        assert(out@ =~= before + md_section(v, k));
        j = j + 1;
    }
    append_str(&mut out, "---\n\n");
    append_str(&mut out, "*Generated: ");
    append_str(&mut out, stamp);
    append_str(&mut out, "*\n");
    assert(out@ =~= markdown_export(v, title@, stamp@));
    out
}

/// The minute text of a time, empty when chrono cannot represent it.
pub open spec fn minute_or_empty(t: i64) -> Seq<char> {
    match utc_minute(t) {
        Some(s) => s,
        None => Seq::empty(),
    }
}

/// The markdown export of some memories, stamped with the current time
/// (`%Y-%m-%d %H:%M UTC`).
pub fn export_markdown_v2(memories: &[Memory], title: &str) -> (r: String)
    ensures
        exists|t: i64| r@ == markdown_export(memory_views(memories@), title@, #[trigger] minute_or_empty(t)),
{
    let now = now_micros();
    let stamp = match minute_text(now) {
        Some(s) => s,
        None => String::new(),
    };
    assert(stamp@ == minute_or_empty(now));
    export_markdown_at(memories, title, stamp.as_str())
}

// ---------------------------------------------------------------------------
// CSV
// ---------------------------------------------------------------------------

/// A text with each `"` doubled.
pub open spec fn csv_quoted(s: Seq<char>) -> Seq<char>
    decreases s.len(),
{
    if s.len() == 0 {
        Seq::empty()
    } else {
        csv_quoted(s.drop_last()) + if s.last() == '"' { seq!['"', '"'] } else { seq![s.last()] }
    }
}

/// The RFC 3339 text of a time, empty when chrono cannot represent it.
pub open spec fn time_text(t: i64) -> Seq<char> {
    match utc_rfc3339(t) {
        Some(s) => s,
        None => Seq::empty(),
    }
}

/// One CSV row: id, kind, quoted key, quoted content, quoted `;`-joined tags, the
/// number of related ids, and both times.
pub open spec fn csv_row(m: MemoryView) -> Seq<char> {
    m.id + ","@ + kind_name(m.kind) + ",\""@ + csv_quoted(m.key) + "\",\""@ + csv_quoted(m.content)
        + "\",\""@ + join(m.tags, ";"@) + "\","@ + decimal(m.related_ids.len()) + ","@ + time_text(
        m.created_at,
    ) + ","@ + time_text(m.updated_at) + "\n"@
}

/// The rows of the first `n` memories.
pub open spec fn csv_rows_of(ms: Seq<MemoryView>, n: int, f: spec_fn(MemoryView) -> Seq<char>) -> Seq<char>
    decreases n,
{
    if n <= 0 || n > ms.len() {
        Seq::empty()
    } else {
        csv_rows_of(ms, n - 1, f) + f(ms[n - 1])
    }
}

/// The CSV text of some memories, with a header line.
pub open spec fn csv_text(ms: Seq<MemoryView>) -> Seq<char> {
    "id,kind,key,content,tags,related_count,created_at,updated_at\n"@ + csv_rows_of(
        ms,
        ms.len() as int,
        |m: MemoryView| csv_row(m),
    )
}

/// Appends a text with each `"` doubled.
fn push_quoted(out: &mut String, s: &str)
    ensures
        final(out)@ == old(out)@ + csv_quoted(s@),
{
    let cs = crate::text::chars_of(s);
    let mut i: usize = 0;
    while i < cs.len()
        invariant
            i <= cs.len(),
            cs@ == s@,
            out@ == old(out)@ + csv_quoted(s@.take(i as int)),
        decreases cs.len() - i,
    {
        assert(s@.take(i + 1).drop_last() =~= s@.take(i as int));
        push_char(out, cs[i]);
        if cs[i] == '"' {
            push_char(out, '"');
        }
        assert(out@ =~= old(out)@ + csv_quoted(s@.take(i + 1)));
        i = i + 1;
    }
    assert(s@.take(cs.len() as int) =~= s@);
}

/// Appends the RFC 3339 text of a time.
fn push_time(out: &mut String, t: i64)
    ensures
        final(out)@ == old(out)@ + time_text(t),
{
    match rfc3339_text(t) {
        Some(s) => append_str(out, s.as_str()),
        None => {
            assert(old(out)@ + Seq::<char>::empty() =~= old(out)@);
        },
    }
}

/// Appends one CSV row.
fn push_csv_row(out: &mut String, m: &Memory)
    ensures
        final(out)@ == old(out)@ + csv_row(m@),
{
    append_str(out, m.id.as_str());
    append_str(out, ",");
    append_str(out, m.kind.to_string().as_str());
    append_str(out, ",\"");
    push_quoted(out, m.key.as_str());
    append_str(out, "\",\"");
    push_quoted(out, m.content.as_str());
    append_str(out, "\",\"");
    append_str(out, join_strings(m.tags.as_slice(), ";").as_str());
    append_str(out, "\",");
    push_decimal(out, m.related_ids.len());
    append_str(out, ",");
    push_time(out, m.created_at);
    append_str(out, ",");
    push_time(out, m.updated_at);
    append_str(out, "\n");
    assert(out@ =~= old(out)@ + csv_row(m@));
}

/// The CSV export: a header line, then per memory its id, kind, key and content
/// (quoted, `"` doubled), tags joined by `;` (quoted), the number of related ids
/// and both times in RFC 3339.
pub fn export_csv_v2(memories: &[Memory]) -> (r: String)
    ensures
        r@ == csv_text(memory_views(memories@)),
{
    let ghost v = memory_views(memories@);
    let ghost f = |m: MemoryView| csv_row(m);
    let mut out = owned("id,kind,key,content,tags,related_count,created_at,updated_at\n");
    let ghost head = out@;
    let mut i: usize = 0;
    while i < memories.len()
        invariant
            i <= memories.len(),
            v == memory_views(memories@),
            f == (|m: MemoryView| csv_row(m)),
            out@ == head + csv_rows_of(v, i as int, f),
        decreases memories.len() - i,
    {
        push_csv_row(&mut out, &memories[i]);
        i = i + 1;
    }
    out
}

/// One row of the plain CSV export: id, kind, quoted key, quoted content with `"`
/// doubled, quoted `;`-joined tags.
pub open spec fn plain_csv_row(m: MemoryView) -> Seq<char> {
    m.id + ","@ + kind_name(m.kind) + ",\""@ + m.key + "\",\""@ + csv_quoted(m.content) + "\",\""@ + join(
        m.tags,
        ";"@,
    ) + "\"\n"@
}

/// The plain CSV text of some memories, with a header line.
pub open spec fn plain_csv_text(ms: Seq<MemoryView>) -> Seq<char> {
    "id,kind,key,content,tags\n"@ + csv_rows_of(ms, ms.len() as int, |m: MemoryView| plain_csv_row(m))
}

/// Appends one plain CSV row.
fn push_plain_row(out: &mut String, m: &Memory)
    ensures
        final(out)@ == old(out)@ + plain_csv_row(m@),
{
    append_str(out, m.id.as_str());
    append_str(out, ",");
    append_str(out, m.kind.to_string().as_str());
    append_str(out, ",\"");
    append_str(out, m.key.as_str());
    append_str(out, "\",\"");
    push_quoted(out, m.content.as_str());
    append_str(out, "\",\"");
    append_str(out, join_strings(m.tags.as_slice(), ";").as_str());
    append_str(out, "\"\n");
    assert(out@ =~= old(out)@ + plain_csv_row(m@));
}

/// The plain CSV export: id, kind, key, content (with `"` doubled) and tags.
pub fn export_csv(memories: &[Memory]) -> (r: String)
    ensures
        r@ == plain_csv_text(memory_views(memories@)),
{
    let ghost v = memory_views(memories@);
    let ghost f = |m: MemoryView| plain_csv_row(m);
    let mut out = owned("id,kind,key,content,tags\n");
    let ghost head = out@;
    let mut i: usize = 0;
    while i < memories.len()
        invariant
            i <= memories.len(),
            v == memory_views(memories@),
            f == (|m: MemoryView| plain_csv_row(m)),
            out@ == head + csv_rows_of(v, i as int, f),
        decreases memories.len() - i,
    {
        push_plain_row(&mut out, &memories[i]);
        i = i + 1;
    }
    out
}

// ---------------------------------------------------------------------------
// Documentation pages
// ---------------------------------------------------------------------------

/// The heading of a kind's documentation section.
pub open spec fn doc_label(k: MemoryKind) -> Seq<char> {
    match k {
        MemoryKind::Convention => "Conventions"@,
        MemoryKind::Pattern => "Patterns"@,
        MemoryKind::Decision => "Decisions"@,
        MemoryKind::Preference => "Preferences"@,
        MemoryKind::Context => "Context"@,
    }
}

/// The description under a kind's documentation heading.
pub open spec fn doc_description(k: MemoryKind) -> Seq<char> {
    match k {
        MemoryKind::Convention => "Coding standards and naming rules."@,
        MemoryKind::Pattern => "Architectural patterns and common approaches."@,
        MemoryKind::Decision => "Technical decisions and rationale."@,
        MemoryKind::Preference => "Team preferences and tool choices."@,
        MemoryKind::Context => "Domain knowledge and business rules."@,
    }
}

/// The colour of a kind on the documentation page.
pub open spec fn doc_color(k: MemoryKind) -> Seq<char> {
    match k {
        MemoryKind::Convention => "#06b6d4"@,
        MemoryKind::Pattern => "#22c55e"@,
        MemoryKind::Decision => "#eab308"@,
        MemoryKind::Preference => "#a855f7"@,
        MemoryKind::Context => "#3b82f6"@,
    }
}

fn label_of(k: MemoryKind) -> (r: &'static str)
    ensures
        r@ == doc_label(k),
{
    match k {
        MemoryKind::Convention => "Conventions",
        MemoryKind::Pattern => "Patterns",
        MemoryKind::Decision => "Decisions",
        MemoryKind::Preference => "Preferences",
        MemoryKind::Context => "Context",
    }
}

fn description_of(k: MemoryKind) -> (r: &'static str)
    ensures
        r@ == doc_description(k),
{
    match k {
        MemoryKind::Convention => "Coding standards and naming rules.",
        MemoryKind::Pattern => "Architectural patterns and common approaches.",
        MemoryKind::Decision => "Technical decisions and rationale.",
        MemoryKind::Preference => "Team preferences and tool choices.",
        MemoryKind::Context => "Domain knowledge and business rules.",
    }
}

fn color_of(k: MemoryKind) -> (r: &'static str)
    ensures
        r@ == doc_color(k),
{
    match k {
        MemoryKind::Convention => "#06b6d4",
        MemoryKind::Pattern => "#22c55e",
        MemoryKind::Decision => "#eab308",
        MemoryKind::Preference => "#a855f7",
        MemoryKind::Context => "#3b82f6",
    }
}

/// The tags shown in documentation: all but `pinned` and `group`.
pub open spec fn shown_tags(tags: Seq<Seq<char>>) -> Seq<Seq<char>> {
    tags.filter(other_than("pinned"@)).filter(other_than("group"@))
}

/// One memory in the markdown documentation.
pub open spec fn doc_entry(m: MemoryView) -> Seq<char> {
    "### "@ + m.key + "\n\n"@ + m.content + "\n"@ + (if shown_tags(m.tags).len() > 0 {
        "\n*Tags: "@ + join(shown_tags(m.tags), ", "@) + "*\n"@
    } else {
        Seq::empty()
    }) + "\n"@
}

/// The markdown documentation section of a kind with memories.
pub open spec fn doc_section(ms: Seq<MemoryView>, k: MemoryKind) -> Seq<char> {
    if count_of_kind(ms, k, ms.len() as int) > 0 {
        "## "@ + doc_label(k) + "\n\n"@ + doc_description(k) + "\n\n"@ + per_memory(
            ms,
            k,
            ms.len() as int,
            |m: MemoryView| doc_entry(m),
        )
    } else {
        Seq::empty()
    }
}

/// The markdown documentation of some memories, stamped with the time text given.
pub open spec fn doc_markdown(ms: Seq<MemoryView>, title: Seq<char>, stamp: Seq<char>) -> Seq<char> {
    "# "@ + title + "\n\n"@ + "*Generated from "@ + decimal(ms.len()) + " memories*\n\n"@ + "---\n\n"@
        + per_kind(ms, 5, |ms: Seq<MemoryView>, k: MemoryKind| doc_section(ms, k)) + "---\n\n"@
        + "*Last updated: "@ + stamp + "*\n"@
}

/// Appends one documentation entry.
fn push_doc_entry(out: &mut String, m: &Memory)
    ensures
        final(out)@ == old(out)@ + doc_entry(m@),
{
    append_str(out, "### ");
    append_str(out, m.key.as_str());
    append_str(out, "\n\n");
    append_str(out, m.content.as_str());
    append_str(out, "\n");
    let a = strings_without(m.tags.as_slice(), "pinned");
    let b = strings_without(a.as_slice(), "group");
    assert(strs(b@) == shown_tags(m@.tags));
    if b.len() > 0 {
        append_str(out, "\n*Tags: ");
        append_str(out, join_strings(b.as_slice(), ", ").as_str());
        append_str(out, "*\n");
    }
    append_str(out, "\n");
    assert(out@ =~= old(out)@ + doc_entry(m@));
}

/// Appends the documentation entries of the memories of one kind.
fn push_doc_entries(out: &mut String, ms: &[Memory], k: MemoryKind)
    ensures
        final(out)@ == old(out)@ + per_memory(memory_views(ms@), k, ms@.len() as int, |m: MemoryView| doc_entry(m)),
{
    let ghost v = memory_views(ms@);
    let ghost f = |m: MemoryView| doc_entry(m);
    let mut i: usize = 0;
    while i < ms.len()
        invariant
            i <= ms.len(),
            v == memory_views(ms@),
            f == (|m: MemoryView| doc_entry(m)),
            out@ == old(out)@ + per_memory(v, k, i as int, f),
        decreases ms.len() - i,
    {
        let ghost before = out@;
        if ms[i].kind == k {
            push_doc_entry(out, &ms[i]);
        } else {
            assert(out@ =~= before + Seq::<char>::empty());
        }
        i = i + 1;
    }
}

/// The markdown documentation of some memories, stamped with the given time text:
/// the title, the total, then for each kind that has memories its heading, its
/// description and each memory's key, content and tags (but `pinned` and `group`).
pub fn generate_markdown_at(memories: &[Memory], title: &str, stamp: &str) -> (r: String)
    ensures
        r@ == doc_markdown(memory_views(memories@), title@, stamp@),
{
    let ghost v = memory_views(memories@);
    let ghost section = |ms: Seq<MemoryView>, k: MemoryKind| doc_section(ms, k);
    let mut out = owned("# ");
    append_str(&mut out, title);
    append_str(&mut out, "\n\n");
    append_str(&mut out, "*Generated from ");
    push_decimal(&mut out, memories.len());
    append_str(&mut out, " memories*\n\n");
    append_str(&mut out, "---\n\n");
    let ghost o0 = out@;
    let mut j: usize = 0;
    while j < 5
        invariant
            j <= 5,
            v == memory_views(memories@),
            section == (|ms: Seq<MemoryView>, k: MemoryKind| doc_section(ms, k)),
            out@ == o0 + per_kind(v, j as int, section),
        decreases 5 - j,
    {
        let k = kind_at(j);
        let c = kind_total(memories, k);
        let ghost before = out@;
        if c > 0 {
            append_str(&mut out, "## ");
            append_str(&mut out, label_of(k));
            append_str(&mut out, "\n\n");
            append_str(&mut out, description_of(k));
            append_str(&mut out, "\n\n");
            push_doc_entries(&mut out, memories, k);
        }
        assert(out@ =~= before + doc_section(v, k));
        j = j + 1;
    }
    append_str(&mut out, "---\n\n");
    append_str(&mut out, "*Last updated: ");
    append_str(&mut out, stamp);
    append_str(&mut out, "*\n");
    assert(out@ =~= doc_markdown(v, title@, stamp@));
    out
}

/// The markdown documentation of some memories, stamped with the current time
/// (`%Y-%m-%d %H:%M UTC`).
pub fn generate_markdown(memories: &[Memory], title: &str) -> (r: String)
    ensures
        exists|t: i64| r@ == doc_markdown(memory_views(memories@), title@, #[trigger] minute_or_empty(t)),
{
    let now = now_micros();
    let stamp = match minute_text(now) {
        Some(s) => s,
        None => String::new(),
    };
    assert(stamp@ == minute_or_empty(now));
    generate_markdown_at(memories, title, stamp.as_str())
}

/// One memory on the documentation page.
pub open spec fn html_entry(m: MemoryView) -> Seq<char> {
    "<div style='background:#1e293b;padding:1rem;border-radius:8px;border-left:4px solid "@ + doc_color(m.kind)
        + "'>\n"@ + "  <strong>"@ + m.key + "</strong><br>\n"@ + "  <p>"@ + m.content + "</p>\n"@
        + "</div>\n"@
}

/// The documentation page section of a kind with memories.
pub open spec fn html_section(ms: Seq<MemoryView>, k: MemoryKind) -> Seq<char> {
    if count_of_kind(ms, k, ms.len() as int) > 0 {
        "<h2 style='color:"@ + doc_color(k) + "'>"@ + doc_label(k) + "</h2>\n"@
            + "<div style='display:grid;gap:1rem;'>\n"@ + per_memory(
            ms,
            k,
            ms.len() as int,
            |m: MemoryView| html_entry(m),
        ) + "</div>\n"@
    } else {
        Seq::empty()
    }
}

/// The documentation page of some memories.
pub open spec fn doc_html(ms: Seq<MemoryView>, title: Seq<char>) -> Seq<char> {
    let body = "<h1>"@ + title + "</h1>\n"@ + "<p><em>Generated from "@ + decimal(ms.len())
        + " memories</em></p>\n"@ + per_kind(ms, 5, |ms: Seq<MemoryView>, k: MemoryKind| html_section(ms, k));
    "<!DOCTYPE html>\n<html><head><title>"@ + title + "</title></head><body>"@ + body + "</body></html>"@
}

/// Appends the page entries of the memories of one kind.
fn push_html_entries(out: &mut String, ms: &[Memory], k: MemoryKind)
    ensures
        final(out)@ == old(out)@ + per_memory(memory_views(ms@), k, ms@.len() as int, |m: MemoryView| html_entry(m)),
{
    let ghost v = memory_views(ms@);
    let ghost f = |m: MemoryView| html_entry(m);
    let mut i: usize = 0;
    while i < ms.len()
        invariant
            i <= ms.len(),
            v == memory_views(ms@),
            f == (|m: MemoryView| html_entry(m)),
            out@ == old(out)@ + per_memory(v, k, i as int, f),
        decreases ms.len() - i,
    {
        let m = &ms[i];
        let ghost before = out@;
        if m.kind == k {
            append_str(out, "<div style='background:#1e293b;padding:1rem;border-radius:8px;border-left:4px solid ");
            append_str(out, color_of(m.kind));
            append_str(out, "'>\n");
            append_str(out, "  <strong>");
            append_str(out, m.key.as_str());
            append_str(out, "</strong><br>\n");
            append_str(out, "  <p>");
            append_str(out, m.content.as_str());
            append_str(out, "</p>\n");
            append_str(out, "</div>\n");
            assert(out@ =~= before + html_entry(v[i as int]));
        } else {
            assert(out@ =~= before + Seq::<char>::empty());
        }
        i = i + 1;
    }
}

/// The HTML documentation page of some memories: the title, the total, and for each
/// kind that has memories a coloured heading and a box per memory with its key and
/// content.
pub fn generate_html(memories: &[Memory], title: &str) -> (r: String)
    ensures
        r@ == doc_html(memory_views(memories@), title@),
{
    let ghost v = memory_views(memories@);
    let ghost section = |ms: Seq<MemoryView>, k: MemoryKind| html_section(ms, k);
    let mut body = owned("<h1>");
    append_str(&mut body, title);
    append_str(&mut body, "</h1>\n");
    append_str(&mut body, "<p><em>Generated from ");
    push_decimal(&mut body, memories.len());
    append_str(&mut body, " memories</em></p>\n");
    let ghost b0 = body@;
    let mut j: usize = 0;
    while j < 5
        invariant
            j <= 5,
            v == memory_views(memories@),
            section == (|ms: Seq<MemoryView>, k: MemoryKind| html_section(ms, k)),
            body@ == b0 + per_kind(v, j as int, section),
        decreases 5 - j,
    {
        let k = kind_at(j);
        let c = kind_total(memories, k);
        let ghost before = body@;
        if c > 0 {
            append_str(&mut body, "<h2 style='color:");
            append_str(&mut body, color_of(k));
            append_str(&mut body, "'>");
            append_str(&mut body, label_of(k));
            append_str(&mut body, "</h2>\n");
            append_str(&mut body, "<div style='display:grid;gap:1rem;'>\n");
            push_html_entries(&mut body, memories, k);
            append_str(&mut body, "</div>\n");
        }
        assert(body@ =~= before + html_section(v, k));
        j = j + 1;
    }
    let mut page = owned("<!DOCTYPE html>\n<html><head><title>");
    append_str(&mut page, title);
    append_str(&mut page, "</title></head><body>");
    append_str(&mut page, body.as_str());
    append_str(&mut page, "</body></html>");
    assert(page@ =~= doc_html(v, title@));
    page
}

/// The file that documentation in a format is written to: `memories.md` for
/// `markdown` or `md`, `memories.html` for `html`; any other format is refused with
/// the message the program shows.
pub fn documentation_file(format: &str) -> (r: Result<String, String>)
    ensures
        match r {
            Ok(f) => (format@ == "markdown"@ || format@ == "md"@) && f@ == "memories.md"@
                || format@ == "html"@ && f@ == "memories.html"@,
            Err(e) => format@ != "markdown"@ && format@ != "md"@ && format@ != "html"@
                && e@ == "Unknown format: "@ + format@ + ". Use 'markdown' or 'html'"@,
        },
{
    if str_eq(format, "markdown") || str_eq(format, "md") {
        Ok(owned("memories.md"))
    } else if str_eq(format, "html") {
        Ok(owned("memories.html"))
    } else {
        let mut e = owned("Unknown format: ");
        append_str(&mut e, format);
        append_str(&mut e, ". Use 'markdown' or 'html'");
        Err(e)
    }
}

// ---------------------------------------------------------------------------
// Graph in DOT
// ---------------------------------------------------------------------------

/// The DOT lines of one memory: its node, then an edge to each related id. The
/// node line ends in `;"n`, not in a line break.
pub open spec fn dot_node(m: MemoryView) -> Seq<char> {
    "  \""@ + m.id + "\" [label=\""@ + m.key + "\"];\"n"@ + dot_edges(m.id, m.related_ids, m.related_ids.len() as int)
}

/// The DOT edges from `id` to the first `k` related ids.
pub open spec fn dot_edges(id: Seq<char>, rids: Seq<Seq<char>>, k: int) -> Seq<char>
    decreases k,
{
    if k <= 0 || k > rids.len() {
        Seq::empty()
    } else {
        dot_edges(id, rids, k - 1) + "  \""@ + id + "\" -> \""@ + rids[k - 1] + "\";\n"@
    }
}

/// The DOT text of the memory graph.
pub open spec fn dot_text(ms: Seq<MemoryView>) -> Seq<char> {
    "digraph memory_graph {\n"@ + csv_rows_of(ms, ms.len() as int, |m: MemoryView| dot_node(m)) + "}\n"@
}

/// Appends the DOT lines of one memory.
fn push_dot_node(out: &mut String, m: &Memory)
    ensures
        final(out)@ == old(out)@ + dot_node(m@),
{
    append_str(out, "  \"");
    append_str(out, m.id.as_str());
    append_str(out, "\" [label=\"");
    append_str(out, m.key.as_str());
    append_str(out, "\"];\"n");
    let ghost head = out@;
    let ghost rids = strs(m.related_ids@);
    let mut j: usize = 0;
    while j < m.related_ids.len()
        invariant
            j <= m.related_ids.len(),
            rids == strs(m.related_ids@),
            out@ == head + dot_edges(m.id@, rids, j as int),
        decreases m.related_ids.len() - j,
    {
        let ghost before = out@;
        append_str(out, "  \"");
        append_str(out, m.id.as_str());
        append_str(out, "\" -> \"");
        append_str(out, m.related_ids[j].as_str());
        append_str(out, "\";\n");
        assert(out@ =~= before + "  \""@ + m.id@ + "\" -> \""@ + rids[j as int] + "\";\n"@);
        j = j + 1;
    }
    assert(out@ =~= old(out)@ + dot_node(m@));
}

/// The memory graph in Graphviz DOT: a node per memory labelled with its key, an
/// edge per related id.
pub fn export_dot(memories: &[Memory]) -> (r: String)
    ensures
        r@ == dot_text(memory_views(memories@)),
{
    let ghost v = memory_views(memories@);
    let ghost f = |m: MemoryView| dot_node(m);
    let mut out = owned("digraph memory_graph {\n");
    let ghost head = out@;
    let mut i: usize = 0;
    while i < memories.len()
        invariant
            i <= memories.len(),
            v == memory_views(memories@),
            f == (|m: MemoryView| dot_node(m)),
            out@ == head + csv_rows_of(v, i as int, f),
        decreases memories.len() - i,
    {
        push_dot_node(&mut out, &memories[i]);
        i = i + 1;
    }
    append_str(&mut out, "}\n");
    out
}

// ---------------------------------------------------------------------------
// The link graph as nodes and edges
// ---------------------------------------------------------------------------

/// The link graph of some memories: a node (id, key) per memory and an edge
/// (source, target) per related id, in order.
#[derive(Debug, Clone)]
pub struct JsonGraph {
    pub nodes: Vec<(String, String)>,
    pub edges: Vec<(String, String)>,
}

/// The plain values of pairs of strings.
pub open spec fn pair_views(v: Seq<(String, String)>) -> Seq<(Seq<char>, Seq<char>)> {
    v.map_values(|p: (String, String)| (p.0@, p.1@))
}

/// The (id, related id) pairs of the memories, in order.
pub open spec fn related_pairs(ms: Seq<MemoryView>) -> Seq<(Seq<char>, Seq<char>)>
    decreases ms.len(),
{
    if ms.len() == 0 {
        Seq::empty()
    } else {
        related_pairs(ms.drop_last()) + ms.last().related_ids.map_values(|r: Seq<char>| (ms.last().id, r))
    }
}

/// The nodes and edges of the link graph of some memories.
pub fn json_graph(memories: &[Memory]) -> (g: JsonGraph)
    ensures
        pair_views(g.nodes@) == memory_views(memories@).map_values(|m: MemoryView| (m.id, m.key)),
        pair_views(g.edges@) == related_pairs(memory_views(memories@)),
{
    let ghost ms = memory_views(memories@);
    let mut nodes: Vec<(String, String)> = Vec::new();
    let mut edges: Vec<(String, String)> = Vec::new();
    let mut i: usize = 0;
    while i < memories.len()
        invariant
            i <= memories.len(),
            ms == memory_views(memories@),
            pair_views(nodes@) == ms.take(i as int).map_values(|m: MemoryView| (m.id, m.key)),
            pair_views(edges@) == related_pairs(ms.take(i as int)),
        decreases memories.len() - i,
    {
        let m = &memories[i];
        assert(ms[i as int] == m@);
        assert(ms.take(i + 1).drop_last() =~= ms.take(i as int));
        let ghost n0 = pair_views(nodes@);
        nodes.push((m.id.clone(), m.key.clone()));
        assert(pair_views(nodes@) =~= n0.push((m@.id, m@.key)));
        assert(ms.take(i + 1).map_values(|m: MemoryView| (m.id, m.key)) =~= ms.take(i as int).map_values(
            |m: MemoryView| (m.id, m.key),
        ).push((m@.id, m@.key)));
        let ghost e0 = pair_views(edges@);
        let ghost rs = m@.related_ids;
        let mut j: usize = 0;
        while j < m.related_ids.len()
            invariant
                j <= m.related_ids.len(),
                rs == m@.related_ids,
                pair_views(edges@) == e0 + rs.take(j as int).map_values(|r: Seq<char>| (m@.id, r)),
            decreases m.related_ids.len() - j,
        {
            let ghost before = pair_views(edges@);
            edges.push((m.id.clone(), m.related_ids[j].clone()));
            assert(rs[j as int] == m.related_ids@[j as int]@);
            assert(pair_views(edges@) =~= before.push((m@.id, rs[j as int])));
            assert(rs.take(j + 1).map_values(|r: Seq<char>| (m@.id, r)) =~= rs.take(j as int).map_values(
                |r: Seq<char>| (m@.id, r),
            ).push((m@.id, rs[j as int])));
            j = j + 1;
        }
        assert(rs.take(rs.len() as int) =~= rs);
        assert(ms.take(i + 1).last() == m@);
        i = i + 1;
    }
    assert(ms.take(memories.len() as int) =~= ms);
    JsonGraph { nodes, edges }
}

} // verus!
