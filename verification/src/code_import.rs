//! Memories from the marked comments of source files: `// TODO: ...`, `# NOTE: ...`
//! and the like. Walking the directory and reading files is left to the program.

use vstd::prelude::*;
use crate::text::{
    strs, trim, has_sub, is_first_occurrence, lines, chars_of, lines_of, trim_chars, find,
    string_of, slice_vec, owned, append_str, push_decimal, decimal, str_eq, contains_str, char_vecs,
    fits_at, byte_cut, byte_prefix, to_lower_text, lower_text, push_absent,
};
use crate::types::{MemoryKind, MemoryInput, MemoryInputView, input_views};

verus! {

/// A marked comment found in a file.
#[derive(Debug, Clone)]
pub struct Comment {
    pub file: String,
    pub line: usize,
    pub tag: String,
    pub content: String,
}

/// The plain value of a comment.
pub struct CommentView {
    pub file: Seq<char>,
    pub line: usize,
    pub tag: Seq<char>,
    pub content: Seq<char>,
}

impl View for Comment {
    type V = CommentView;

    open spec fn view(&self) -> CommentView {
        CommentView { file: self.file@, line: self.line, tag: self.tag@, content: self.content@ }
    }
}

/// The plain values of some comments.
pub open spec fn comment_views(v: Seq<Comment>) -> Seq<CommentView> {
    v.map_values(|c: Comment| c@)
}

/// The markers looked for, in the order they are tried.
pub open spec fn comment_tags() -> Seq<Seq<char>> {
    seq!["TODO"@, "FIXME"@, "HACK"@, "XXX"@, "NOTE"@, "WARN"@, "SAFETY"@]
}

/// The marker tried at place `i`.
fn tag_at(i: usize) -> (r: &'static str)
    requires
        i < 7,
    ensures
        r@ == comment_tags()[i as int],
{
    match i {
        0 => "TODO",
        1 => "FIXME",
        2 => "HACK",
        3 => "XXX",
        4 => "NOTE",
        5 => "WARN",
        _ => "SAFETY",
    }
}

/// The first index at which `p` occurs in `s`.
pub open spec fn first_occurrence(s: Seq<char>, p: Seq<char>) -> int {
    choose|i: int| is_first_occurrence(s, p, i)
}

/// The comment text that a trimmed line holds for a marker: what follows
/// `// TAG` (or else `# TAG`) at its first occurrence followed by a colon, colon
/// included, trimmed.
pub open spec fn line_comment(t: Seq<char>, tag: Seq<char>) -> Option<Seq<char>> {
    let a = "// "@ + tag + ":"@;
    let b = "# "@ + tag + ":"@;
    if has_sub(t, a) {
        Some(trim(t.skip(first_occurrence(t, a) + 3 + tag.len())))
    } else if has_sub(t, b) {
        Some(trim(t.skip(first_occurrence(t, b) + 2 + tag.len())))
    } else {
        None
    }
}

/// The comments of one trimmed line for the first `k` markers.
pub open spec fn comments_of_line(t: Seq<char>, file: Seq<char>, n: usize, k: int) -> Seq<CommentView>
    decreases k,
{
    if k <= 0 || k > 7 {
        Seq::empty()
    } else {
        let prev = comments_of_line(t, file, n, k - 1);
        let tag = comment_tags()[k - 1];
        match line_comment(t, tag) {
            Some(c) => if c.len() > 0 {
                prev.push(CommentView { file, line: n, tag, content: c })
            } else {
                prev
            },
            None => prev,
        }
    }
}

/// The comments of the first `k` lines, numbered from one.
pub open spec fn comments_of_lines(ls: Seq<Seq<char>>, file: Seq<char>, k: int) -> Seq<CommentView>
    decreases k,
{
    if k <= 0 || k > ls.len() || k > usize::MAX {
        Seq::empty()
    } else {
        comments_of_lines(ls, file, k - 1) + comments_of_line(trim(ls[k - 1]), file, k as usize, 7)
    }
}

/// The marked comments of a file's text.
pub open spec fn extracted(content: Seq<char>, file: Seq<char>) -> Seq<CommentView> {
    comments_of_lines(lines(content), file, lines(content).len() as int)
}

/// The first occurrence of `p` in `s`, as a spec value, is the one found.
pub proof fn lemma_first_occurrence(s: Seq<char>, p: Seq<char>, i: int)
    requires
        is_first_occurrence(s, p, i),
    ensures
        first_occurrence(s, p) == i,
{
    let c = first_occurrence(s, p);
    assert(is_first_occurrence(s, p, c));
    if c < i {
        assert(!crate::text::occurs_at(s, p, c));
    }
    if i < c {
        assert(!crate::text::occurs_at(s, p, i));
    }
}

/// A comment found for an earlier marker stays found after the later ones.
proof fn lemma_line_keeps(t: Seq<char>, file: Seq<char>, n: usize, k0: int, k: int, c: CommentView)
    requires
        0 <= k0 <= k <= 7,
        comments_of_line(t, file, n, k0).contains(c),
    ensures
        comments_of_line(t, file, n, k).contains(c),
    decreases k - k0,
{
    if k > k0 {
        lemma_line_keeps(t, file, n, k0, k - 1, c);
        let prev = comments_of_line(t, file, n, k - 1);
        let i = choose|i: int| 0 <= i < prev.len() && prev[i] == c;
        assert(comments_of_line(t, file, n, k)[i] == c);
    }
}

/// Trimming a text that starts with a colon keeps that colon.
proof fn lemma_trim_keeps_colon(s: Seq<char>)
    requires
        s.len() > 0,
        s[0] == ':',
    ensures
        trim(s).len() > 0,
        trim(s)[0] == ':',
{
    assert(!crate::text::is_white_space(':'));
    assert(crate::text::trim_start(s) == s);
    lemma_trim_end_keeps_first(s);
}

/// Trimming the end of a text that starts with a non-space character keeps it.
proof fn lemma_trim_end_keeps_first(s: Seq<char>)
    requires
        s.len() > 0,
        !crate::text::is_white_space(s[0]),
    ensures
        crate::text::trim_end(s).len() > 0,
        crate::text::trim_end(s)[0] == s[0],
    decreases s.len(),
{
    if crate::text::is_white_space(s.last()) {
        assert(s.len() > 1);
        lemma_trim_end_keeps_first(s.drop_last());
    }
}

/// Every marker is looked for: a trimmed line `// MARKER:` followed by any text
/// gives a comment with that marker, the line's number, and the trimmed text from the
/// colon on, for each of TODO, FIXME, HACK, XXX, NOTE, WARN and SAFETY.
pub proof fn law_every_marker_found(tag: Seq<char>, x: Seq<char>, file: Seq<char>, n: usize)
    requires
        tag == "TODO"@ || tag == "FIXME"@ || tag == "HACK"@ || tag == "XXX"@ || tag == "NOTE"@
            || tag == "WARN"@ || tag == "SAFETY"@,
    ensures
        comments_of_line("// "@ + tag + ":"@ + x, file, n, 7).contains(
            CommentView { file, line: n, tag, content: trim(":"@ + x) }),
        trim(":"@ + x).len() > 0,
        trim(":"@ + x)[0] == ':',
{
    reveal_strlit("// ");
    reveal_strlit(":");
    let j: int = if tag == "TODO"@ {
        0
    } else if tag == "FIXME"@ {
        1
    } else if tag == "HACK"@ {
        2
    } else if tag == "XXX"@ {
        3
    } else if tag == "NOTE"@ {
        4
    } else if tag == "WARN"@ {
        5
    } else {
        6
    };
    assert(comment_tags()[j] == tag);
    let a = "// "@ + tag + ":"@;
    let t = a + x;
    assert(t == "// "@ + tag + ":"@ + x);
    assert(t.subrange(0, a.len() as int) =~= a);
    assert(crate::text::occurs_at(t, a, 0));
    assert(is_first_occurrence(t, a, 0));
    lemma_first_occurrence(t, a, 0);
    assert(t.skip(3 + tag.len() as int) =~= ":"@ + x);
    lemma_trim_keeps_colon(":"@ + x);
    let c = CommentView { file, line: n, tag, content: trim(":"@ + x) };
    assert(line_comment(t, tag) == Some(trim(":"@ + x)));
    let prev = comments_of_line(t, file, n, j);
    assert(comments_of_line(t, file, n, j + 1) == prev.push(c));
    assert(prev.push(c)[prev.len() as int] == c);
    lemma_line_keeps(t, file, n, j + 1, 7, c);
}

/// The comment text for a marker behind a given lead (`// ` or `# `).
fn comment_after(t: &Vec<char>, lead: &str, tag: &str) -> (r: Option<Vec<char>>)
    ensures
        match r {
            Some(c) => has_sub(t@, lead@ + tag@ + ":"@) && c@ == trim(t@.skip(
                first_occurrence(t@, lead@ + tag@ + ":"@) + lead@.len() + tag@.len(),
            )),
            None => !has_sub(t@, lead@ + tag@ + ":"@),
        },
{
    let mut pat = owned(lead);
    append_str(&mut pat, tag);
    append_str(&mut pat, ":");
    let pc = chars_of(pat.as_str());
    match find(t.as_slice(), pc.as_slice()) {
        Some(p) => {
            proof {
                lemma_first_occurrence(t@, pc@, p as int);
                reveal_strlit(":");
            }
            let lead_len = chars_of(lead).len();
            let tag_len = chars_of(tag).len();
            assert(pc@ == lead@ + tag@ + ":"@);
            assert(pc@.len() == lead_len + tag_len + 1);
            assert(p + pc@.len() <= t@.len());
            assert(p as int + lead_len as int + tag_len as int <= t.len());
            let start = p + lead_len + tag_len;
            let rest = slice_vec(t.as_slice(), start, t.len());
            assert(rest@ =~= t@.skip(start as int));
            Some(trim_chars(rest.as_slice()))
        },
        None => None,
    }
}

/// The comments of one trimmed line.
fn line_comments(out: &mut Vec<Comment>, t: &Vec<char>, file: &str, n: usize)
    ensures
        comment_views(final(out)@) == comment_views(old(out)@) + comments_of_line(t@, file@, n, 7),
{
    let ghost start = comment_views(out@);
    let mut k: usize = 0;
    while k < 7
        invariant
            k <= 7,
            comment_views(out@) == start + comments_of_line(t@, file@, n, k as int),
        decreases 7 - k,
    {
        let tag = tag_at(k);
        let found = match comment_after(t, "// ", tag) {
            Some(c) => {
                proof {
                    reveal_strlit("// ");
                }
                Some(c)
            },
            None => {
                let r = comment_after(t, "# ", tag);
                proof {
                    reveal_strlit("# ");
                }
                r
            },
        };
        assert(found matches Some(c) ==> line_comment(t@, tag@) == Some(c@));
        assert(found is None ==> line_comment(t@, tag@) is None);
        match found {
            Some(c) => {
                if c.len() > 0 {
                    let ghost prev = comment_views(out@);
                    let cm = Comment { file: owned(file), line: n, tag: owned(tag), content: string_of(c.as_slice()) };
                    out.push(cm);
                    assert(comment_views(out@) =~= prev.push(cm@));
                }
            },
            None => {},
        }
        k = k + 1;
    }
}

/// The marked comments of a file's text: for each line, trimmed, each marker in
/// turn (TODO, FIXME, HACK, XXX, NOTE, WARN, SAFETY) found as `// TAG:` (or else
/// `# TAG:`) gives a comment with the line's number and the trimmed text from the
/// colon on, unless that text is empty.
pub fn extract_comments(content: &str, filename: &str) -> (r: Vec<Comment>)
    ensures
        comment_views(r@) == extracted(content@, filename@),
{
    let cs = chars_of(content);
    let ls = lines_of(cs.as_slice());
    let ghost lv = char_vecs(ls@);
    let mut out: Vec<Comment> = Vec::new();
    let mut i: usize = 0;
    assert(comment_views(out@) =~= Seq::<CommentView>::empty());
    while i < ls.len()
        invariant
            i <= ls.len(),
            lv == char_vecs(ls@),
            lv == lines(content@),
            comment_views(out@) == comments_of_lines(lv, filename@, i as int),
        decreases ls.len() - i,
    {
        let t = trim_chars(ls[i].as_slice());
        line_comments(&mut out, &t, filename, i + 1);
        i = i + 1;
    }
    out
}

// ---------------------------------------------------------------------------
// From comments to memories
// ---------------------------------------------------------------------------

/// A text cut to its first `n` bytes followed by `...`, when it is longer.
pub open spec fn truncated(s: Seq<char>, n: nat) -> Seq<char> {
    if vstd::utf8::encode_utf8(s).len() <= n {
        s
    } else {
        byte_cut(s, n) + "..."@
    }
}

/// The kind a marker gives its memories.
pub open spec fn kind_for_tag(tag: Seq<char>) -> MemoryKind {
    if tag == "TODO"@ {
        MemoryKind::Pattern
    } else if tag == "FIXME"@ || tag == "HACK"@ || tag == "XXX"@ {
        MemoryKind::Decision
    } else if tag == "WARN"@ || tag == "SAFETY"@ {
        MemoryKind::Convention
    } else {
        MemoryKind::Context
    }
}

/// The key by which repeated comments of one marker are recognised.
pub open spec fn dedup_key(c: CommentView) -> Seq<char> {
    c.tag + ":"@ + truncated(c.content, 30)
}

/// The memory input made from a comment.
pub open spec fn comment_input(c: CommentView) -> MemoryInputView {
    MemoryInputView {
        kind: kind_for_tag(c.tag),
        key: lower_text(c.tag) + ": "@ + truncated(c.content, 50),
        content: c.content + " ("@ + c.file + ":"@ + decimal(c.line as nat) + ")"@,
        tags: seq!["code-comment"@, lower_text(c.tag)],
        related_ids: Seq::empty(),
    }
}

/// The markers of the first `k` comments, each once, in order of first use.
pub open spec fn tag_order(cs: Seq<CommentView>, k: int) -> Seq<Seq<char>>
    decreases k,
{
    if k <= 0 || k > cs.len() {
        Seq::empty()
    } else {
        push_absent(tag_order(cs, k - 1), cs[k - 1].tag)
    }
}

/// An earlier comment of the same marker has the same key.
pub open spec fn repeats_earlier(cs: Seq<CommentView>, i: int) -> bool {
    exists|j: int| 0 <= j < i && cs[j].tag == cs[i].tag && #[trigger] dedup_key(cs[j]) == dedup_key(cs[i])
}

/// The inputs from the first `k` comments with marker `tag`, repeats left out.
pub open spec fn group_inputs(cs: Seq<CommentView>, tag: Seq<char>, k: int) -> Seq<MemoryInputView>
    decreases k,
{
    if k <= 0 || k > cs.len() {
        Seq::empty()
    } else {
        let prev = group_inputs(cs, tag, k - 1);
        if cs[k - 1].tag == tag && !repeats_earlier(cs, k - 1) {
            prev.push(comment_input(cs[k - 1]))
        } else {
            prev
        }
    }
}

/// The inputs of the first `k` markers of `tags`, one group after another.
pub open spec fn inputs_by_tag(cs: Seq<CommentView>, tags: Seq<Seq<char>>, k: int) -> Seq<MemoryInputView>
    decreases k,
{
    if k <= 0 || k > tags.len() {
        Seq::empty()
    } else {
        inputs_by_tag(cs, tags, k - 1) + group_inputs(cs, tags[k - 1], cs.len() as int)
    }
}

/// The memory inputs from some comments: grouped by marker in order of first use,
/// within a group in order, each comment whose key repeats an earlier one's left out.
pub open spec fn comment_inputs(cs: Seq<CommentView>) -> Seq<MemoryInputView> {
    let tags = tag_order(cs, cs.len() as int);
    inputs_by_tag(cs, tags, tags.len() as int)
}

/// `s` cut to its first `max_len` bytes followed by `...` when it is longer.
pub fn truncate(s: &str, max_len: usize) -> (r: String)
    requires
        fits_at(s@, max_len as nat),
    ensures
        r@ == truncated(s@, max_len as nat),
{
    if s.as_bytes().len() <= max_len {
        owned(s)
    } else {
        let mut r = byte_prefix(s, max_len);
        append_str(&mut r, "...");
        r
    }
}

/// The kind a marker gives its memories.
fn kind_of_tag(tag: &str) -> (k: MemoryKind)
    ensures
        k == kind_for_tag(tag@),
{
    if str_eq(tag, "TODO") {
        MemoryKind::Pattern
    } else if str_eq(tag, "FIXME") || str_eq(tag, "HACK") || str_eq(tag, "XXX") {
        MemoryKind::Decision
    } else if str_eq(tag, "WARN") || str_eq(tag, "SAFETY") {
        MemoryKind::Convention
    } else {
        MemoryKind::Context
    }
}

/// The key by which repeated comments of one marker are recognised.
fn key_of(c: &Comment) -> (r: String)
    requires
        fits_at(c.content@, 30),
    ensures
        r@ == dedup_key(c@),
{
    let mut k = owned(c.tag.as_str());
    append_str(&mut k, ":");
    append_str(&mut k, truncate(c.content.as_str(), 30).as_str());
    k
}

/// The memory input made from a comment.
fn input_of_comment(c: &Comment) -> (r: MemoryInput)
    requires
        fits_at(c.content@, 50),
    ensures
        r@ == comment_input(c@),
{
    let lt = to_lower_text(c.tag.as_str());
    let mut key = to_lower_text(c.tag.as_str());
    append_str(&mut key, ": ");
    append_str(&mut key, truncate(c.content.as_str(), 50).as_str());
    let mut content = owned(c.content.as_str());
    append_str(&mut content, " (");
    append_str(&mut content, c.file.as_str());
    append_str(&mut content, ":");
    push_decimal(&mut content, c.line);
    append_str(&mut content, ")");
    let tags = vec![owned("code-comment"), lt];
    assert(strs(tags@) =~= seq!["code-comment"@, lower_text(c.tag@)]);
    let r = MemoryInput { kind: kind_of_tag(c.tag.as_str()), key, content, tags, related_ids: Vec::new() };
    assert(strs(r.related_ids@) =~= Seq::<Seq<char>>::empty());
    r
}

/// Memories from comments: grouped by marker in order of first use, within a group
/// in order; a comment whose marker and first thirty bytes repeat an earlier one's
/// is left out. Each has the marker's kind, the key `tag: text` (lower-case marker,
/// text cut at fifty bytes), the text with its file and line as content, and the
/// tags `code-comment` and the lower-case marker. Every text must be cut at thirty
/// bytes between characters, and each kept (not repeated) text at fifty bytes too.
pub fn comments_to_memories(comments: &[Comment]) -> (r: Vec<MemoryInput>)
    requires
        forall|i: int|
            0 <= i < comments.len() ==> fits_at(#[trigger] comments@[i].content@, 30) && (!repeats_earlier(
                comment_views(comments@),
                i,
            ) ==> fits_at(comments@[i].content@, 50)),
    ensures
        input_views(r@) == comment_inputs(comment_views(comments@)),
{
    let ghost cs = comment_views(comments@);
    let mut tags: Vec<String> = Vec::new();
    let mut i: usize = 0;
    while i < comments.len()
        invariant
            i <= comments.len(),
            cs == comment_views(comments@),
            strs(tags@) == tag_order(cs, i as int),
        decreases comments.len() - i,
    {
        if !contains_str(tags.as_slice(), comments[i].tag.as_str()) {
            let ghost prev = strs(tags@);
            tags.push(comments[i].tag.clone());
            assert(strs(tags@) =~= prev.push(cs[i as int].tag));
        }
        i = i + 1;
    }
    let mut out: Vec<MemoryInput> = Vec::new();
    let mut t: usize = 0;
    while t < tags.len()
        invariant
            t <= tags.len(),
            cs == comment_views(comments@),
            strs(tags@) == tag_order(cs, cs.len() as int),
            forall|i: int|
                0 <= i < comments.len() ==> fits_at(#[trigger] comments@[i].content@, 30) && (!repeats_earlier(
                    comment_views(comments@),
                    i,
                ) ==> fits_at(comments@[i].content@, 50)),
            input_views(out@) == inputs_by_tag(cs, strs(tags@), t as int),
        decreases tags.len() - t,
    {
        let tag = tags[t].as_str();
        let ghost before = input_views(out@);
        let mut seen: Vec<String> = Vec::new();
        let mut k: usize = 0;
        while k < comments.len()
            invariant
                t < tags.len(),
                k <= comments.len(),
                tag@ == strs(tags@)[t as int],
                cs == comment_views(comments@),
                forall|i: int|
                    0 <= i < comments.len() ==> fits_at(#[trigger] comments@[i].content@, 30) && (!repeats_earlier(
                        comment_views(comments@),
                        i,
                    ) ==> fits_at(comments@[i].content@, 50)),
                forall|x: Seq<char>|
                    strs(seen@).contains(x) <==> exists|j: int|
                        0 <= j < k && cs[j].tag == tag@ && #[trigger] dedup_key(cs[j]) == x,
                input_views(out@) == before + group_inputs(cs, tag@, k as int),
            decreases comments.len() - k,
        {
            assert(fits_at(comments@[k as int].content@, 30));
            let c = &comments[k];
            if str_eq(c.tag.as_str(), tag) {
                let key = key_of(c);
                let rep = contains_str(seen.as_slice(), key.as_str());
                proof {
                    if rep {
                        let j = choose|j: int| 0 <= j < k && cs[j].tag == tag@ && #[trigger] dedup_key(cs[j]) == key@;
                        assert(repeats_earlier(cs, k as int));
                    }
                    if repeats_earlier(cs, k as int) {
                        let j = choose|j: int| 0 <= j < k && cs[j].tag == cs[k as int].tag && #[trigger] dedup_key(cs[j]) == dedup_key(cs[k as int]);
                        assert(strs(seen@).contains(key@));
                    }
                }
                if !rep {
                    let ghost ps = strs(seen@);
                    seen.push(key);
                    assert(strs(seen@) =~= ps.push(dedup_key(cs[k as int])));
                    assert forall|x: Seq<char>|
                        strs(seen@).contains(x) <==> exists|j: int|
                            0 <= j < k + 1 && cs[j].tag == tag@ && #[trigger] dedup_key(cs[j]) == x by {
                        if strs(seen@).contains(x) && x != dedup_key(cs[k as int]) {
                            let q = choose|q: int| 0 <= q < strs(seen@).len() && strs(seen@)[q] == x;
                            assert(ps[q] == x);
                            assert(ps.contains(x));
                            let j = choose|j: int| 0 <= j < k && cs[j].tag == tag@ && #[trigger] dedup_key(cs[j]) == x;
                            assert(0 <= j < k + 1 && cs[j].tag == tag@ && dedup_key(cs[j]) == x);
                        }
                        if x == dedup_key(cs[k as int]) {
                            assert(cs[k as int].tag == tag@);
                            assert(strs(seen@)[ps.len() as int] == x);
                        }
                        if exists|j: int| 0 <= j < k + 1 && cs[j].tag == tag@ && #[trigger] dedup_key(cs[j]) == x {
                            let j = choose|j: int| 0 <= j < k + 1 && cs[j].tag == tag@ && #[trigger] dedup_key(cs[j]) == x;
                            if j < k {
                                assert(ps.contains(x));
                                let q = choose|q: int| 0 <= q < ps.len() && ps[q] == x;
                                assert(strs(seen@)[q] == x);
                            } else {
                                assert(strs(seen@)[ps.len() as int] == x);
                            }
                        }
                    }
                    let ghost prev = input_views(out@);
                    let inp = input_of_comment(c);
                    out.push(inp);
                    assert(input_views(out@) =~= prev.push(inp@));
                } else {
                    assert(cs[k as int] == c@);
                    assert(key@ == dedup_key(cs[k as int]));
                    assert forall|x: Seq<char>|
                        strs(seen@).contains(x) <==> exists|j: int|
                            0 <= j < k + 1 && cs[j].tag == tag@ && #[trigger] dedup_key(cs[j]) == x by {
                        if exists|j: int| 0 <= j < k + 1 && cs[j].tag == tag@ && #[trigger] dedup_key(cs[j]) == x {
                            let j = choose|j: int| 0 <= j < k + 1 && cs[j].tag == tag@ && #[trigger] dedup_key(cs[j]) == x;
                            if j == k {
                                assert(x == key@);
                                assert(strs(seen@).contains(key@));
                            } else {
                                assert(0 <= j < k && cs[j].tag == tag@ && dedup_key(cs[j]) == x);
                            }
                        }
                        if strs(seen@).contains(x) {
                            let j = choose|j: int| 0 <= j < k && cs[j].tag == tag@ && #[trigger] dedup_key(cs[j]) == x;
                            assert(0 <= j < k + 1 && cs[j].tag == tag@ && dedup_key(cs[j]) == x);
                        }
                    }
                }
            } else {
                assert forall|x: Seq<char>|
                    strs(seen@).contains(x) <==> exists|j: int|
                        0 <= j < k + 1 && cs[j].tag == tag@ && #[trigger] dedup_key(cs[j]) == x by {
                    if exists|j: int| 0 <= j < k + 1 && cs[j].tag == tag@ && #[trigger] dedup_key(cs[j]) == x {
                        let j = choose|j: int| 0 <= j < k + 1 && cs[j].tag == tag@ && #[trigger] dedup_key(cs[j]) == x;
                        assert(j < k);
                    }
                }
            }
            k = k + 1;
        }
        assert(input_views(out@) =~= inputs_by_tag(cs, strs(tags@), t + 1));
        t = t + 1;
    }
    out
}

} // verus!
