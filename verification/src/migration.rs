//! Memories from the files of other tools: Obsidian notes with front matter,
//! markdown files, and Notion's CSV export. Finding and reading the files is left
//! to the program.

use vstd::prelude::*;
use crate::text::{
    strs, trim, has_prefix, has_sub, split_once, split_char, lines, lower_text, char_vecs, chars_of,
    lines_of, split_chars, split_once_chars, trim_chars, string_of, slice_vec, find, owned, to_lower_text,
    starts_with, str_eq,
};
use crate::types::{MemoryKind, MemoryInput, MemoryInputView, input_views};
use crate::code_import::first_occurrence;
use crate::markdown::{parse_markdown, markdown_memories};

verus! {

// ---------------------------------------------------------------------------
// Shared pieces
// ---------------------------------------------------------------------------

/// The pieces trimmed, empty ones left out.
pub open spec fn trimmed_pieces(ps: Seq<Seq<char>>) -> Seq<Seq<char>>
    decreases ps.len(),
{
    if ps.len() == 0 {
        Seq::empty()
    } else {
        let prev = trimmed_pieces(ps.drop_last());
        if trim(ps.last()).len() > 0 {
            prev.push(trim(ps.last()))
        } else {
            prev
        }
    }
}

/// Splits at `sep`, trims each piece and leaves out empty ones.
pub fn split_trimmed(s: &[char], sep: char) -> (r: Vec<String>)
    ensures
        strs(r@) == trimmed_pieces(split_char(s@, sep)),
{
    let ps = split_chars(s, sep);
    let ghost pv = char_vecs(ps@);
    let mut r: Vec<String> = Vec::new();
    let mut i: usize = 0;
    assert(pv.take(0) =~= Seq::<Seq<char>>::empty());
    while i < ps.len()
        invariant
            i <= ps.len(),
            pv == char_vecs(ps@),
            pv == split_char(s@, sep),
            strs(r@) == trimmed_pieces(pv.take(i as int)),
        decreases ps.len() - i,
    {
        assert(pv.take(i + 1).drop_last() =~= pv.take(i as int));
        assert(pv.take(i + 1).last() == ps@[i as int]@);
        let t = trim_chars(ps[i].as_slice());
        if t.len() > 0 {
            let ghost prev = strs(r@);
            let s = string_of(t.as_slice());
            r.push(s);
            assert(strs(r@) =~= prev.push(t@));
        }
        i = i + 1;
    }
    assert(pv.take(ps.len() as int) =~= pv);
    r
}

// ---------------------------------------------------------------------------
// Obsidian notes
// ---------------------------------------------------------------------------

/// The front matter and the body of a note: when it starts with `---` and a second
/// `---` follows, the text between them and the trimmed text after the second.
pub open spec fn frontmatter_split(c: Seq<char>) -> Option<(Seq<char>, Seq<char>)> {
    let rest = c.skip(3);
    if has_prefix(c, "---"@) && has_sub(rest, "---"@) {
        let e = first_occurrence(rest, "---"@);
        Some((rest.take(e), trim(rest.skip(e + 3))))
    } else {
        None
    }
}

/// The value given to `key` in front-matter lines `key: value` (both trimmed; the
/// last line for a key wins).
pub open spec fn fm_value(ls: Seq<Seq<char>>, key: Seq<char>) -> Option<Seq<char>>
    decreases ls.len(),
{
    if ls.len() == 0 {
        None
    } else {
        let s = split_once(ls.last(), ':');
        if s is Some && trim(s.unwrap().0) == key {
            Some(trim(s.unwrap().1))
        } else {
            fm_value(ls.drop_last(), key)
        }
    }
}

/// The kind a note's `type` gives: convention, pattern or decision; context otherwise.
pub open spec fn note_kind(t: Option<Seq<char>>) -> MemoryKind {
    match t {
        Some(v) => if v == "convention"@ {
            MemoryKind::Convention
        } else if v == "pattern"@ {
            MemoryKind::Pattern
        } else if v == "decision"@ {
            MemoryKind::Decision
        } else {
            MemoryKind::Context
        },
        None => MemoryKind::Context,
    }
}

/// The memory input of an Obsidian note: keyed by the file's stem, its body as
/// content, its front matter's comma-separated `tags` and its `type` as kind.
pub open spec fn note_input(stem: Seq<char>, content: Seq<char>) -> MemoryInputView {
    let split = frontmatter_split(content);
    let fm = if split is Some { lines(split.unwrap().0) } else { Seq::empty() };
    let body = if split is Some { split.unwrap().1 } else { content };
    let tags = match fm_value(fm, "tags"@) {
        Some(v) => trimmed_pieces(split_char(v, ',')),
        None => Seq::empty(),
    };
    MemoryInputView {
        kind: note_kind(fm_value(fm, "type"@)),
        key: stem,
        content: body,
        tags,
        related_ids: Seq::empty(),
    }
}

/// The value of `key` in some front-matter lines.
fn fm_lookup(ls: &Vec<Vec<char>>, key: &str) -> (r: Option<Vec<char>>)
    ensures
        match r {
            Some(v) => fm_value(char_vecs(ls@), key@) == Some(v@),
            None => fm_value(char_vecs(ls@), key@) is None,
        },
{
    let ghost lv = char_vecs(ls@);
    let kc = chars_of(key);
    let mut i = ls.len();
    assert(lv.take(i as int) =~= lv);
    while i > 0
        invariant
            i <= ls.len(),
            lv == char_vecs(ls@),
            kc@ == key@,
            fm_value(lv, key@) == fm_value(lv.take(i as int), key@),
        decreases i,
    {
        assert(lv.take(i as int).last() == ls@[i - 1]@);
        assert(lv.take(i as int).drop_last() =~= lv.take(i - 1));
        match split_once_chars(ls[i - 1].as_slice(), ':') {
            Some((k, v)) => {
                let tk = trim_chars(k.as_slice());
                if crate::text::chars_eq(tk.as_slice(), kc.as_slice()) {
                    return Some(trim_chars(v.as_slice()));
                }
            },
            None => {},
        }
        i = i - 1;
    }
    None
}

/// The memory input of an Obsidian note, keyed by its file's stem.
pub fn obsidian_note(stem: &str, content: &str) -> (r: MemoryInput)
    ensures
        r@ == note_input(stem@, content@),
{
    let c = chars_of(content);
    let mut fm: Vec<Vec<char>> = Vec::new();
    let mut body = owned(content);
    let dashes = chars_of("---");
    proof {
        reveal_strlit("---");
    }
    let ghost split = frontmatter_split(content@);
    if starts_with(c.as_slice(), dashes.as_slice()) {
        let rest = slice_vec(c.as_slice(), 3, c.len());
        assert(rest@ =~= content@.skip(3));
        match find(rest.as_slice(), dashes.as_slice()) {
            Some(e) => {
                proof {
                    crate::code_import::lemma_first_occurrence(rest@, dashes@, e as int);
                }
                let f = slice_vec(rest.as_slice(), 0, e);
                let b = slice_vec(rest.as_slice(), e + 3, rest.len());
                assert(f@ =~= rest@.take(e as int));
                assert(b@ =~= rest@.skip(e + 3));
                fm = lines_of(f.as_slice());
                body = string_of(trim_chars(b.as_slice()).as_slice());
            },
            None => {},
        }
    }
    assert(split is Some ==> char_vecs(fm@) == lines(split.unwrap().0) && body@ == split.unwrap().1);
    assert(split is None ==> char_vecs(fm@) =~= Seq::<Seq<char>>::empty() && body@ == content@);
    let tags = match fm_lookup(&fm, "tags") {
        Some(v) => split_trimmed(v.as_slice(), ','),
        None => Vec::new(),
    };
    let kind = match fm_lookup(&fm, "type") {
        Some(v) => {
            let vs = string_of(v.as_slice());
            if str_eq(vs.as_str(), "convention") {
                MemoryKind::Convention
            } else if str_eq(vs.as_str(), "pattern") {
                MemoryKind::Pattern
            } else if str_eq(vs.as_str(), "decision") {
                MemoryKind::Decision
            } else {
                MemoryKind::Context
            }
        },
        None => MemoryKind::Context,
    };
    let r = MemoryInput { kind, key: owned(stem), content: body, tags, related_ids: Vec::new() };
    assert(strs(r.related_ids@) =~= Seq::<Seq<char>>::empty());
    assert(strs(r.tags@) == note_input(stem@, content@).tags);
    r
}

// ---------------------------------------------------------------------------
// Markdown files
// ---------------------------------------------------------------------------

/// The memory inputs of a markdown file: its sections, or when it has none the
/// whole file as one context memory keyed by the file's stem and tagged `imported`.
pub open spec fn markdown_file_inputs(stem: Seq<char>, content: Seq<char>) -> Seq<MemoryInputView> {
    let parsed = markdown_memories(content);
    if parsed.len() > 0 {
        parsed
    } else {
        seq![MemoryInputView {
            kind: MemoryKind::Context,
            key: stem,
            content: content,
            tags: seq!["imported"@],
            related_ids: Seq::empty(),
        }]
    }
}

/// The memory inputs of a markdown file.
pub fn markdown_file(stem: &str, content: &str) -> (r: Vec<MemoryInput>)
    ensures
        input_views(r@) == markdown_file_inputs(stem@, content@),
{
    let parsed = parse_markdown(content);
    if parsed.len() > 0 {
        return parsed;
    }
    let tags = vec![owned("imported")];
    assert(strs(tags@) =~= seq!["imported"@]);
    let m = MemoryInput { kind: MemoryKind::Context, key: owned(stem), content: owned(content), tags, related_ids: Vec::new() };
    assert(strs(m.related_ids@) =~= Seq::<Seq<char>>::empty());
    let r = vec![m];
    assert(input_views(r@) =~= markdown_file_inputs(stem@, content@));
    r
}

// ---------------------------------------------------------------------------
// Notion CSV export
// ---------------------------------------------------------------------------

/// The first column, from `i` on, whose trimmed, lower-cased header is `name`.
pub open spec fn column_from(hs: Seq<Seq<char>>, name: Seq<char>, i: int) -> Option<int>
    decreases hs.len() - i,
{
    if i < 0 || i >= hs.len() {
        None
    } else if lower_text(trim(hs[i])) == name {
        Some(i)
    } else {
        column_from(hs, name, i + 1)
    }
}

/// The trimmed field in a column, empty when there is no such column or field.
pub open spec fn field(fs: Seq<Seq<char>>, col: Option<int>) -> Seq<char> {
    match col {
        Some(i) => if 0 <= i < fs.len() {
            trim(fs[i])
        } else {
            Seq::empty()
        },
        None => Seq::empty(),
    }
}

/// The kind named in a row's `type` field, lower-cased; context otherwise.
pub open spec fn row_kind(t: Seq<char>) -> MemoryKind {
    let l = lower_text(t);
    if l == "convention"@ || l == "conv"@ {
        MemoryKind::Convention
    } else if l == "pattern"@ || l == "pat"@ {
        MemoryKind::Pattern
    } else if l == "decision"@ || l == "dec"@ {
        MemoryKind::Decision
    } else if l == "preference"@ || l == "pref"@ {
        MemoryKind::Preference
    } else {
        MemoryKind::Context
    }
}

/// The header fields of a CSV text: its first line split at commas.
pub open spec fn csv_headers(content: Seq<char>) -> Seq<Seq<char>> {
    let ls = lines(content);
    split_char(if ls.len() > 0 { ls[0] } else { Seq::empty() }, ',')
}

/// The input a CSV row gives under the given headers, unless both its name and its
/// content are empty.
pub open spec fn row_input(line: Seq<char>, hs: Seq<Seq<char>>) -> Option<MemoryInputView> {
    let fs = split_char(line, ',');
    let name = field(fs, column_from(hs, "name"@, 0));
    let content = field(fs, column_from(hs, "content"@, 0));
    let tags = field(fs, column_from(hs, "tags"@, 0));
    let kind = field(fs, column_from(hs, "type"@, 0));
    if name.len() == 0 && content.len() == 0 {
        None
    } else {
        Some(MemoryInputView {
            kind: row_kind(kind),
            key: name,
            content: content,
            tags: trimmed_pieces(split_char(tags, ';')),
            related_ids: Seq::empty(),
        })
    }
}

/// The inputs of the rows among the first `k` lines after the header.
pub open spec fn csv_rows(ls: Seq<Seq<char>>, hs: Seq<Seq<char>>, k: int) -> Seq<MemoryInputView>
    decreases k,
{
    if k <= 0 || k >= ls.len() {
        Seq::empty()
    } else {
        let prev = csv_rows(ls, hs, k - 1);
        match row_input(ls[k], hs) {
            Some(m) => prev.push(m),
            None => prev,
        }
    }
}

/// The memory inputs of a Notion CSV export: one per row after the header, taken
/// from its `name`, `content`, `tags` (separated by `;`) and `type` columns.
pub open spec fn notion_inputs(content: Seq<char>) -> Seq<MemoryInputView> {
    let ls = lines(content);
    csv_rows(ls, csv_headers(content), ls.len() - 1)
}

/// The first column from `i` on whose header names `name`.
fn column_of(hs: &Vec<Vec<char>>, name: &str) -> (r: Option<usize>)
    ensures
        match r {
            Some(i) => column_from(char_vecs(hs@), name@, 0) == Some(i as int),
            None => column_from(char_vecs(hs@), name@, 0) is None,
        },
{
    let ghost hv = char_vecs(hs@);
    let mut i: usize = 0;
    while i < hs.len()
        invariant
            i <= hs.len(),
            hv == char_vecs(hs@),
            column_from(hv, name@, 0) == column_from(hv, name@, i as int),
        decreases hs.len() - i,
    {
        let h = string_of(trim_chars(hs[i].as_slice()).as_slice());
        let l = to_lower_text(h.as_str());
        if str_eq(l.as_str(), name) {
            return Some(i);
        }
        i = i + 1;
    }
    None
}

/// The trimmed field in a column.
fn field_at(fs: &Vec<Vec<char>>, col: Option<usize>) -> (r: Vec<char>)
    ensures
        r@ == field(char_vecs(fs@), match col {
            Some(i) => Some(i as int),
            None => None,
        }),
{
    match col {
        Some(i) => if i < fs.len() {
            trim_chars(fs[i].as_slice())
        } else {
            Vec::new()
        },
        None => Vec::new(),
    }
}

/// The kind named in a `type` field.
fn kind_of_row(t: &Vec<char>) -> (k: MemoryKind)
    ensures
        k == row_kind(t@),
{
    let s = string_of(t.as_slice());
    let l = to_lower_text(s.as_str());
    let l = l.as_str();
    if str_eq(l, "convention") || str_eq(l, "conv") {
        MemoryKind::Convention
    } else if str_eq(l, "pattern") || str_eq(l, "pat") {
        MemoryKind::Pattern
    } else if str_eq(l, "decision") || str_eq(l, "dec") {
        MemoryKind::Decision
    } else if str_eq(l, "preference") || str_eq(l, "pref") {
        MemoryKind::Preference
    } else {
        MemoryKind::Context
    }
}

/// The memory inputs of a Notion CSV export.
pub fn notion_csv(content: &str) -> (r: Vec<MemoryInput>)
    ensures
        input_views(r@) == notion_inputs(content@),
{
    let c = chars_of(content);
    let ls = lines_of(c.as_slice());
    let ghost lv = char_vecs(ls@);
    let header: Vec<char> = if ls.len() > 0 { slice_vec(ls[0].as_slice(), 0, ls[0].len()) } else { Vec::new() };
    assert(header@ =~= (if lv.len() > 0 { lv[0] } else { Seq::<char>::empty() }));
    let hs = split_chars(header.as_slice(), ',');
    let ghost hv = char_vecs(hs@);
    assert(hv == csv_headers(content@));
    let name_col = column_of(&hs, "name");
    let content_col = column_of(&hs, "content");
    let tags_col = column_of(&hs, "tags");
    let type_col = column_of(&hs, "type");
    let mut out: Vec<MemoryInput> = Vec::new();
    let mut k: usize = 1;
    while k < ls.len()
        invariant
            1 <= k,
            k <= ls.len() || ls.len() == 0,
            lv == char_vecs(ls@),
            lv == lines(content@),
            hv == char_vecs(hs@),
            hv == csv_headers(content@),
            name_col matches Some(i) ==> column_from(hv, "name"@, 0) == Some(i as int),
            name_col is None ==> column_from(hv, "name"@, 0) is None,
            content_col matches Some(i) ==> column_from(hv, "content"@, 0) == Some(i as int),
            content_col is None ==> column_from(hv, "content"@, 0) is None,
            tags_col matches Some(i) ==> column_from(hv, "tags"@, 0) == Some(i as int),
            tags_col is None ==> column_from(hv, "tags"@, 0) is None,
            type_col matches Some(i) ==> column_from(hv, "type"@, 0) == Some(i as int),
            type_col is None ==> column_from(hv, "type"@, 0) is None,
            input_views(out@) == csv_rows(lv, hv, k - 1),
        decreases ls.len() - k,
    {
        let fs = split_chars(ls[k].as_slice(), ',');
        let name = field_at(&fs, name_col);
        let body = field_at(&fs, content_col);
        let tags = field_at(&fs, tags_col);
        let kind = field_at(&fs, type_col);
        let ghost row = row_input(lv[k as int], hv);
        if name.len() > 0 || body.len() > 0 {
            let m = MemoryInput {
                kind: kind_of_row(&kind),
                key: string_of(name.as_slice()),
                content: string_of(body.as_slice()),
                tags: split_trimmed(tags.as_slice(), ';'),
                related_ids: Vec::new(),
            };
            assert(strs(m.related_ids@) =~= Seq::<Seq<char>>::empty());
            assert(row == Some(m@));
            let ghost prev = input_views(out@);
            out.push(m);
            assert(input_views(out@) =~= prev.push(m@));
        } else {
            assert(row is None);
        }
        k = k + 1;
    }
    out
}

} // verus!
