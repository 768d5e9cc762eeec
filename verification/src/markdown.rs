//! Importing memories from markdown: one memory per heading section, or one per
//! bullet of a list, each with a kind guessed from its words.

use vstd::prelude::*;
use crate::text::{
    char_vecs, chars_of, has_prefix, has_sub, is_blank, lines, lines_of, lower_text, slice_vec,
    split_once, split_once_chars, starts_with, str_contains, string_of, to_lower_text, trim, trim_chars,
    trim_start, trim_start_index,
};
use crate::types::{MemoryInput, MemoryInputView, MemoryKind, input_views};

verus! {

/// Whether the lower-cased text holds any of the words.
pub open spec fn holds_any(text: Seq<char>, words: Seq<Seq<char>>) -> bool {
    exists|i: int| 0 <= i < words.len() && has_sub(text, #[trigger] words[i])
}

/// The kind that the words of a key and its content suggest, tried in the order
/// convention, pattern, decision, preference; context otherwise. Both are compared
/// in lower case.
pub open spec fn kind_guess(key: Seq<char>, content: Seq<char>) -> MemoryKind {
    let k = lower_text(key);
    let c = lower_text(content);
    if holds_any(k, seq!["naming"@, "style"@, "format"@, "convention"@])
        || holds_any(c, seq!["always use"@, "never use"@, "should be"@]) {
        MemoryKind::Convention
    } else if holds_any(k, seq!["pattern"@, "architecture"@, "structure"@, "approach"@])
        || holds_any(c, seq!["use the"@, "implement"@]) {
        MemoryKind::Pattern
    } else if holds_any(k, seq!["decision"@, "chose"@, "selected"@, "why"@])
        || holds_any(c, seq!["we decided"@, "we chose"@, "rationale"@]) {
        MemoryKind::Decision
    } else if holds_any(k, seq!["prefer"@, "favorite"@])
        || holds_any(c, seq!["we prefer"@, "preferred"@]) {
        MemoryKind::Preference
    } else {
        MemoryKind::Context
    }
}

/// Whether `text` holds any of the words.
fn contains_any(text: &str, words: &[&str]) -> (r: bool)
    ensures
        r == exists|i: int| 0 <= i < words@.len() && has_sub(text@, #[trigger] words@[i]@),
{
    let mut i: usize = 0;
    while i < words.len()
        invariant
            i <= words.len(),
            forall|j: int| 0 <= j < i ==> !has_sub(text@, #[trigger] words@[j]@),
        decreases words.len() - i,
    {
        if str_contains(text, words[i]) {
            return true;
        }
        i = i + 1;
    }
    false
}

/// Guesses the kind of a memory from its key and content.
pub fn guess_kind(key: &str, content: &str) -> (k: MemoryKind)
    ensures
        k == kind_guess(key@, content@),
{
    let lk = to_lower_text(key);
    let lc = to_lower_text(content);
    let lk = lk.as_str();
    let lc = lc.as_str();
    let a = ["naming", "style", "format", "convention"];
    let b = ["always use", "never use", "should be"];
    let c = ["pattern", "architecture", "structure", "approach"];
    let d = ["use the", "implement"];
    let e = ["decision", "chose", "selected", "why"];
    let f = ["we decided", "we chose", "rationale"];
    let g = ["prefer", "favorite"];
    let h = ["we prefer", "preferred"];
    let ra = contains_any(lk, &a);
    let rb = contains_any(lc, &b);
    let rc = contains_any(lk, &c);
    let rd = contains_any(lc, &d);
    let re = contains_any(lk, &e);
    let rf = contains_any(lc, &f);
    let rg = contains_any(lk, &g);
    let rh = contains_any(lc, &h);
    proof {
        let av = seq!["naming"@, "style"@, "format"@, "convention"@];
        assert(a@.map_values(|s: &str| s@) =~= av);
        assert(ra == holds_any(lk@, av)) by {
            if ra {
                let i = choose|i: int| 0 <= i < a@.len() && has_sub(lk@, #[trigger] a@[i]@);
                assert(av[i] == a@[i]@);
            }
            if holds_any(lk@, av) {
                let i = choose|i: int| 0 <= i < av.len() && has_sub(lk@, #[trigger] av[i]);
                assert(av[i] == a@[i]@);
            }
        }
        let bv = seq!["always use"@, "never use"@, "should be"@];
        assert(rb == holds_any(lc@, bv)) by {
            if rb {
                let i = choose|i: int| 0 <= i < b@.len() && has_sub(lc@, #[trigger] b@[i]@);
                assert(bv[i] == b@[i]@);
            }
            if holds_any(lc@, bv) {
                let i = choose|i: int| 0 <= i < bv.len() && has_sub(lc@, #[trigger] bv[i]);
                assert(bv[i] == b@[i]@);
            }
        }
        let cv = seq!["pattern"@, "architecture"@, "structure"@, "approach"@];
        assert(rc == holds_any(lk@, cv)) by {
            if rc {
                let i = choose|i: int| 0 <= i < c@.len() && has_sub(lk@, #[trigger] c@[i]@);
                assert(cv[i] == c@[i]@);
            }
            if holds_any(lk@, cv) {
                let i = choose|i: int| 0 <= i < cv.len() && has_sub(lk@, #[trigger] cv[i]);
                assert(cv[i] == c@[i]@);
            }
        }
        let dv = seq!["use the"@, "implement"@];
        assert(rd == holds_any(lc@, dv)) by {
            if rd {
                let i = choose|i: int| 0 <= i < d@.len() && has_sub(lc@, #[trigger] d@[i]@);
                assert(dv[i] == d@[i]@);
            }
            if holds_any(lc@, dv) {
                let i = choose|i: int| 0 <= i < dv.len() && has_sub(lc@, #[trigger] dv[i]);
                assert(dv[i] == d@[i]@);
            }
        }
        let ev = seq!["decision"@, "chose"@, "selected"@, "why"@];
        assert(re == holds_any(lk@, ev)) by {
            if re {
                let i = choose|i: int| 0 <= i < e@.len() && has_sub(lk@, #[trigger] e@[i]@);
                assert(ev[i] == e@[i]@);
            }
            if holds_any(lk@, ev) {
                let i = choose|i: int| 0 <= i < ev.len() && has_sub(lk@, #[trigger] ev[i]);
                assert(ev[i] == e@[i]@);
            }
        }
        let fv = seq!["we decided"@, "we chose"@, "rationale"@];
        assert(rf == holds_any(lc@, fv)) by {
            if rf {
                let i = choose|i: int| 0 <= i < f@.len() && has_sub(lc@, #[trigger] f@[i]@);
                assert(fv[i] == f@[i]@);
            }
            if holds_any(lc@, fv) {
                let i = choose|i: int| 0 <= i < fv.len() && has_sub(lc@, #[trigger] fv[i]);
                assert(fv[i] == f@[i]@);
            }
        }
        let gv = seq!["prefer"@, "favorite"@];
        assert(rg == holds_any(lk@, gv)) by {
            if rg {
                let i = choose|i: int| 0 <= i < g@.len() && has_sub(lk@, #[trigger] g@[i]@);
                assert(gv[i] == g@[i]@);
            }
            if holds_any(lk@, gv) {
                let i = choose|i: int| 0 <= i < gv.len() && has_sub(lk@, #[trigger] gv[i]);
                assert(gv[i] == g@[i]@);
            }
        }
        let hv = seq!["we prefer"@, "preferred"@];
        assert(rh == holds_any(lc@, hv)) by {
            if rh {
                let i = choose|i: int| 0 <= i < h@.len() && has_sub(lc@, #[trigger] h@[i]@);
                assert(hv[i] == h@[i]@);
            }
            if holds_any(lc@, hv) {
                let i = choose|i: int| 0 <= i < hv.len() && has_sub(lc@, #[trigger] hv[i]);
                assert(hv[i] == h@[i]@);
            }
        }
    }
    if ra || rb {
        MemoryKind::Convention
    } else if rc || rd {
        MemoryKind::Pattern
    } else if re || rf {
        MemoryKind::Decision
    } else if rg || rh {
        MemoryKind::Preference
    } else {
        MemoryKind::Context
    }
}


/// The memory made from a section or bullet: its key, its content, the kind guessed
/// from both, and the given tags.
pub open spec fn imported_memory(key: Seq<char>, content: Seq<char>, tags: Seq<Seq<char>>) -> MemoryInputView {
    MemoryInputView { kind: kind_guess(key, content), key, content, tags, related_ids: seq![] }
}

/// The tags of a memory imported from a markdown section.
pub open spec fn section_tags() -> Seq<Seq<char>> {
    seq!["imported"@, "markdown"@]
}

/// Where the markdown reader stands after some lines: inside a code fence or not, the
/// current section's title, the text gathered for it, and the memories made so far.
pub struct SectionState {
    pub in_code: bool,
    pub section: Option<Seq<char>>,
    pub text: Seq<char>,
    pub out: Seq<MemoryInputView>,
}

/// Closing a section: its trimmed text becomes a memory when it is longer than ten bytes.
pub open spec fn close_section(section: Option<Seq<char>>, text: Seq<char>, out: Seq<MemoryInputView>) -> Seq<MemoryInputView> {
    match section {
        Some(title) => {
            let c = trim(text);
            if vstd::utf8::encode_utf8(c).len() > 10 {
                out.push(imported_memory(title, c, section_tags()))
            } else {
                out
            }
        },
        None => out,
    }
}

/// The title of a heading line (`# ` or `## ` at its very start), untrimmed.
pub open spec fn heading(line: Seq<char>) -> Option<Seq<char>> {
    if has_prefix(line, "# "@) {
        Some(line.skip(2))
    } else if has_prefix(line, "## "@) {
        Some(line.skip(3))
    } else {
        None
    }
}

/// Reading one line: a fence line (three backquotes after leading whitespace) toggles
/// the code state; lines inside code are skipped; a heading closes the section and
/// opens another; any other non-blank line is added to the text with a newline.
pub open spec fn section_step(st: SectionState, line: Seq<char>) -> SectionState {
    if has_prefix(trim_start(line), "```"@) {
        SectionState { in_code: !st.in_code, ..st }
    } else if st.in_code {
        st
    } else {
        match heading(line) {
            Some(h) => SectionState {
                in_code: false,
                section: Some(trim(h)),
                text: seq![],
                out: close_section(st.section, st.text, st.out),
            },
            None => if trim(line).len() > 0 {
                SectionState { text: st.text + line + seq!['\n'], ..st }
            } else {
                st
            },
        }
    }
}

/// The reader's state after the given lines.
pub open spec fn read_sections(ls: Seq<Seq<char>>) -> SectionState
    decreases ls.len(),
{
    if ls.len() == 0 {
        SectionState { in_code: false, section: None, text: seq![], out: seq![] }
    } else {
        section_step(read_sections(ls.drop_last()), ls.last())
    }
}

/// The memories of a markdown text: the sections read line by line, the last one closed.
pub open spec fn markdown_memories(content: Seq<char>) -> Seq<MemoryInputView> {
    let st = read_sections(lines(content));
    close_section(st.section, st.text, st.out)
}

/// A vector of string literals as owned strings.
fn owned_list(items: &[&str]) -> (r: Vec<String>)
    ensures
        crate::text::strs(r@) == items@.map_values(|s: &str| s@),
{
    let mut r: Vec<String> = Vec::new();
    let mut i: usize = 0;
    while i < items.len()
        invariant
            i <= items.len(),
            crate::text::strs(r@) == items@.take(i as int).map_values(|s: &str| s@),
        decreases items.len() - i,
    {
        let ghost before = crate::text::strs(r@);
        r.push(items[i].to_owned());
        assert(crate::text::strs(r@) =~= before.push(items@[i as int]@));
        assert(items@.take(i + 1).map_values(|s: &str| s@) =~= items@.take(i as int).map_values(|s: &str| s@).push(items@[i as int]@));
        i = i + 1;
    }
    assert(items@.take(items.len() as int) =~= items@);
    r
}

/// Closes the current section into `out`.
fn close_into(section: &Option<Vec<char>>, text: &Vec<char>, out: &mut Vec<MemoryInput>)
    ensures
        input_views(final(out)@) == close_section(
            match section { Some(t) => Some(t@), None => None },
            text@,
            input_views(old(out)@),
        ),
{
    match section {
        Some(title) => {
            let c = trim_chars(text.as_slice());
            let cs = string_of(c.as_slice());
            if cs.as_str().as_bytes().len() > 10 {
                let key = string_of(title.as_slice());
                let kind = guess_kind(key.as_str(), cs.as_str());
                let tags = owned_list(&["imported", "markdown"]);
                proof {
                    reveal_strlit("imported");
                    reveal_strlit("markdown");
                }
                assert(crate::text::strs(tags@) =~= section_tags());
                let m = MemoryInput { kind, key, content: cs, tags, related_ids: Vec::new() };
                assert(m@.related_ids =~= Seq::<Seq<char>>::empty());
                assert(m@ == imported_memory(title@, trim(text@), section_tags()));
                let ghost before = input_views(out@);
                out.push(m);
                assert(input_views(out@) =~= before.push(m@));
            }
        },
        None => {},
    }
}

/// Imports a markdown text: each `# ` or `## ` heading starts a section, whose
/// non-blank lines outside code fences become the content of one memory (when that
/// content, trimmed, is longer than ten bytes).
pub fn parse_markdown(content: &str) -> (r: Vec<MemoryInput>)
    ensures
        input_views(r@) == markdown_memories(content@),
{
    let chars = chars_of(content);
    let ls = lines_of(chars.as_slice());
    let ghost lv = char_vecs(ls@);
    let mut in_code = false;
    let mut section: Option<Vec<char>> = None;
    let mut text: Vec<char> = Vec::new();
    let mut out: Vec<MemoryInput> = Vec::new();
    let fence = ['`', '`', '`'];
    let h1 = ['#', ' '];
    let h2 = ['#', '#', ' '];
    proof {
        reveal_strlit("```");
        reveal_strlit("# ");
        reveal_strlit("## ");
    }
    assert(fence@ =~= "```"@);
    assert(h1@ =~= "# "@);
    assert(h2@ =~= "## "@);
    assert(lv.take(0) =~= Seq::<Seq<char>>::empty());
    assert(input_views(out@) =~= Seq::<MemoryInputView>::empty());
    assert(text@ =~= Seq::<char>::empty());
    let mut i: usize = 0;
    while i < ls.len()
        invariant
            i <= ls.len(),
            lv == char_vecs(ls@),
            lv == lines(content@),
            fence@ == "```"@,
            h1@ == "# "@,
            h2@ == "## "@,
            read_sections(lv.take(i as int)) == (SectionState {
                in_code,
                section: match section { Some(t) => Some(t@), None => None },
                text: text@,
                out: input_views(out@),
            }),
        decreases ls.len() - i,
    {
        let line = &ls[i];
        assert(lv.take(i + 1).drop_last() =~= lv.take(i as int));
        assert(lv.take(i + 1).last() == line@);
        let ts = trim_start_index(line.as_slice());
        let rest = slice_vec(line.as_slice(), ts, line.len());
        assert(rest@ =~= trim_start(line@));
        if starts_with(rest.as_slice(), &fence) {
            in_code = !in_code;
        } else if in_code {
        } else if starts_with(line.as_slice(), &h1) || starts_with(line.as_slice(), &h2) {
            let skip: usize = if starts_with(line.as_slice(), &h1) { 2 } else { 3 };
            let title = slice_vec(line.as_slice(), skip, line.len());
            assert(title@ =~= line@.skip(skip as int));
            close_into(&section, &text, &mut out);
            section = Some(trim_chars(title.as_slice()));
            text = Vec::new();
            assert(text@ =~= Seq::<char>::empty());
        } else if !is_blank(line.as_slice()) {
            let ghost before = text@;
            let mut k: usize = 0;
            while k < line.len()
                invariant
                    k <= line.len(),
                    text@ == before + line@.take(k as int),
                decreases line.len() - k,
            {
                text.push(line[k]);
                assert(line@.take(k + 1) =~= line@.take(k as int).push(line@[k as int]));
                k = k + 1;
            }
            text.push('\n');
            assert(line@.take(line.len() as int) =~= line@);
            assert(text@ =~= before + line@ + seq!['\n']);
        }
        i = i + 1;
    }
    assert(lv.take(ls.len() as int) =~= lv);
    close_into(&section, &text, &mut out);
    out
}

/// Where the bullet reader stands: the current bullet's key and text, and the
/// memories made so far.
pub struct BulletState {
    pub key: Seq<char>,
    pub text: Seq<char>,
    pub out: Seq<MemoryInputView>,
}

/// Closing a bullet: when it has a key and non-blank text, the trimmed text becomes a memory.
pub open spec fn close_bullet(key: Seq<char>, text: Seq<char>, out: Seq<MemoryInputView>) -> Seq<MemoryInputView> {
    if key.len() > 0 && trim(text).len() > 0 {
        out.push(imported_memory(key, trim(text), seq!["imported"@]))
    } else {
        out
    }
}

/// Reading one line of a list: a trimmed line that starts with `- ` or `* ` closes the
/// bullet and opens another, whose key and text are split at the first `:` (all key
/// when there is none); any other non-blank line is added to the text after a space.
pub open spec fn bullet_step(st: BulletState, line: Seq<char>) -> BulletState {
    let t = trim(line);
    if has_prefix(t, "- "@) || has_prefix(t, "* "@) {
        let out = close_bullet(st.key, st.text, st.out);
        let b = t.skip(2);
        match split_once(b, ':') {
            Some((k, rest)) => BulletState { key: trim(k), text: trim(rest), out },
            None => BulletState { key: b, text: seq![], out },
        }
    } else if t.len() > 0 {
        BulletState {
            text: (if st.text.len() > 0 { st.text.push(' ') } else { st.text }) + t,
            ..st
        }
    } else {
        st
    }
}

/// The bullet reader's state after the given lines.
pub open spec fn read_bullets(ls: Seq<Seq<char>>) -> BulletState
    decreases ls.len(),
{
    if ls.len() == 0 {
        BulletState { key: seq![], text: seq![], out: seq![] }
    } else {
        bullet_step(read_bullets(ls.drop_last()), ls.last())
    }
}

/// The memories of a bulleted list: the bullets read line by line, the last one closed.
pub open spec fn bullet_memories(content: Seq<char>) -> Seq<MemoryInputView> {
    let st = read_bullets(lines(content));
    close_bullet(st.key, st.text, st.out)
}

/// Closes the current bullet into `out`.
fn close_bullet_into(key: &Vec<char>, text: &Vec<char>, out: &mut Vec<MemoryInput>)
    ensures
        input_views(final(out)@) == close_bullet(key@, text@, input_views(old(out)@)),
{
    if key.len() > 0 {
        let c = trim_chars(text.as_slice());
        if c.len() > 0 {
            let k = string_of(key.as_slice());
            let cs = string_of(c.as_slice());
            let kind = guess_kind(k.as_str(), cs.as_str());
            let tags = owned_list(&["imported"]);
            proof {
                reveal_strlit("imported");
            }
            assert(crate::text::strs(tags@) =~= seq!["imported"@]);
            let m = MemoryInput { kind, key: k, content: cs, tags, related_ids: Vec::new() };
            assert(m@.related_ids =~= Seq::<Seq<char>>::empty());
            assert(m@ == imported_memory(key@, trim(text@), seq!["imported"@]));
            let ghost before = input_views(out@);
            out.push(m);
            assert(input_views(out@) =~= before.push(m@));
        }
    }
}

/// Imports a bulleted list: each `- ` or `* ` bullet becomes a memory whose key is the
/// text before its first `:` and whose content is the rest, joined with the
/// continuation lines that follow.
pub fn parse_bullet_list(content: &str) -> (r: Vec<MemoryInput>)
    ensures
        input_views(r@) == bullet_memories(content@),
{
    let chars = chars_of(content);
    let ls = lines_of(chars.as_slice());
    let ghost lv = char_vecs(ls@);
    let mut key: Vec<char> = Vec::new();
    let mut text: Vec<char> = Vec::new();
    let mut out: Vec<MemoryInput> = Vec::new();
    let dash = ['-', ' '];
    let star = ['*', ' '];
    proof {
        reveal_strlit("- ");
        reveal_strlit("* ");
    }
    assert(dash@ =~= "- "@);
    assert(star@ =~= "* "@);
    assert(lv.take(0) =~= Seq::<Seq<char>>::empty());
    assert(input_views(out@) =~= Seq::<MemoryInputView>::empty());
    assert(text@ =~= Seq::<char>::empty());
    assert(key@ =~= Seq::<char>::empty());
    let mut i: usize = 0;
    while i < ls.len()
        invariant
            i <= ls.len(),
            lv == char_vecs(ls@),
            lv == lines(content@),
            dash@ == "- "@,
            star@ == "* "@,
            read_bullets(lv.take(i as int)) == (BulletState { key: key@, text: text@, out: input_views(out@) }),
        decreases ls.len() - i,
    {
        let line = &ls[i];
        assert(lv.take(i + 1).drop_last() =~= lv.take(i as int));
        assert(lv.take(i + 1).last() == line@);
        let t = trim_chars(line.as_slice());
        if starts_with(t.as_slice(), &dash) || starts_with(t.as_slice(), &star) {
            close_bullet_into(&key, &text, &mut out);
            let b = slice_vec(t.as_slice(), 2, t.len());
            assert(b@ =~= t@.skip(2));
            match split_once_chars(b.as_slice(), ':') {
                Some((k, rest)) => {
                    key = trim_chars(k.as_slice());
                    text = trim_chars(rest.as_slice());
                },
                None => {
                    key = b;
                    text = Vec::new();
                    assert(text@ =~= Seq::<char>::empty());
                },
            }
        } else if t.len() > 0 {
            let ghost before = text@;
            if text.len() > 0 {
                text.push(' ');
            }
            let ghost mid = text@;
            let mut k: usize = 0;
            while k < t.len()
                invariant
                    k <= t.len(),
                    text@ == mid + t@.take(k as int),
                decreases t.len() - k,
            {
                text.push(t[k]);
                assert(t@.take(k + 1) =~= t@.take(k as int).push(t@[k as int]));
                k = k + 1;
            }
            assert(t@.take(t.len() as int) =~= t@);
        }
        i = i + 1;
    }
    assert(lv.take(ls.len() as int) =~= lv);
    close_bullet_into(&key, &text, &mut out);
    out
}

} // verus!
