//! The git hooks a project installs: what a hook file holds after installing and
//! after uninstalling. Reading and writing the files is left to the program.

use vstd::prelude::*;
use crate::text::{strs, has_sub, has_prefix, occurs_at, lines, join, trim, chars_of, lines_of, char_vecs,
    string_of, trim_chars, str_contains, owned, append_str, matches_at};

verus! {

/// The pre-commit hook: exports the memories and stages them.
pub const PRE_COMMIT_HOOK: &'static str = "#!/bin/sh\n# project-memory: auto-export memories on commit\nif command -v pmem >/dev/null 2>&1; then\n    pmem export > .memory/memories.json 2>/dev/null || true\n    if [ -f .memory/memories.json ]; then\n        git add .memory/memories.json 2>/dev/null || true\n    fi\nfi\n";

/// The post-merge hook: reports that memories came in.
pub const POST_MERGE_HOOK: &'static str = "#!/bin/sh\n# project-memory: reload after merge\nif command -v pmem >/dev/null 2>&1; then\n    echo \"project-memory: memories synced\"\nfi\n";

/// The text a hook file holds after installing `script`: the script when there is no
/// file; the file with a newline and the script after it; or `None`, leaving the
/// file as it is, when it mentions `project-memory` already.
pub open spec fn installed_text(existing: Option<Seq<char>>, script: Seq<char>) -> Option<Seq<char>> {
    match existing {
        None => Some(script),
        Some(e) => if has_sub(e, "project-memory"@) {
            None
        } else {
            Some(e + "\n"@ + script)
        },
    }
}

/// What a hook file holds after installing `script` (`None`: leave it as it is).
pub fn installed_hook_text(existing: Option<String>, script: &str) -> (r: Option<String>)
    ensures
        opt_view(r) == installed_text(opt_view(existing), script@),
{
    match existing {
        None => Some(owned(script)),
        Some(e) => {
            if str_contains(e.as_str(), "project-memory") {
                None
            } else {
                let mut t = e;
                append_str(&mut t, "\n");
                append_str(&mut t, script);
                Some(t)
            }
        },
    }
}

/// The text of an optional string.
pub open spec fn opt_view(o: Option<String>) -> Option<Seq<char>> {
    match o {
        Some(s) => Some(s@),
        None => None,
    }
}

/// `str::replace`: every occurrence of `p` (not empty), from the left and not
/// overlapping, replaced by `w`.
pub open spec fn replace_all(s: Seq<char>, p: Seq<char>, w: Seq<char>) -> Seq<char>
    decreases s.len(),
{
    if s.len() == 0 {
        Seq::empty()
    } else if p.len() > 0 && has_prefix(s, p) {
        w + replace_all(s.skip(p.len() as int), p, w)
    } else {
        seq![s[0]] + replace_all(s.skip(1), p, w)
    }
}

fn replace_chars(s: &[char], p: &[char], w: &[char]) -> (r: Vec<char>)
    ensures
        r@ == replace_all(s@, p@, w@),
{
    let mut out: Vec<char> = Vec::new();
    let mut i: usize = 0;
    assert(s@.skip(0) =~= s@);
    while i < s.len()
        invariant
            i <= s.len(),
            out@ + replace_all(s@.skip(i as int), p@, w@) == replace_all(s@, p@, w@),
        decreases s.len() - i,
    {
        let ghost rest = s@.skip(i as int);
        if p.len() > 0 && matches_at(s, p, i) {
            assert(rest.take(p.len() as int) =~= s@.subrange(i as int, i + p.len()));
            assert(has_prefix(rest, p@));
            assert(rest.skip(p.len() as int) =~= s@.skip(i + p.len()));
            let ghost before = out@;
            let mut k: usize = 0;
            while k < w.len()
                invariant
                    k <= w.len(),
                    out@ == before + w@.take(k as int),
                decreases w.len() - k,
            {
                out.push(w[k]);
                assert(w@.take(k + 1) =~= w@.take(k as int).push(w@[k as int]));
                k = k + 1;
            }
            assert(w@.take(w.len() as int) =~= w@);
            assert(out@ + replace_all(s@.skip(i + p.len()), p@, w@) =~= before + (w@ + replace_all(rest.skip(p.len() as int), p@, w@)));
            i = i + p.len();
        } else {
            assert(!(p.len() > 0 && has_prefix(rest, p@))) by {
                if p.len() > 0 && has_prefix(rest, p@) {
                    assert(s@.subrange(i as int, i + p.len()) =~= rest.take(p.len() as int));
                }
            }
            assert(rest.skip(1) =~= s@.skip(i + 1));
            let ghost before = out@;
            out.push(s[i]);
            assert(out@ + replace_all(s@.skip(i + 1), p@, w@) =~= before + (seq![rest[0]] + replace_all(rest.skip(1), p@, w@)));
            i = i + 1;
        }
    }
    assert(s@.skip(i as int).len() == 0);
    assert(out@ + Seq::<char>::empty() =~= out@);
    out
}

/// The text a hook file keeps after uninstalling: both scripts taken out wherever
/// they stand, then its lines joined by newlines and the whole trimmed; `None` when
/// nothing is left and the file goes.
pub open spec fn cleaned_text(content: Seq<char>) -> Option<Seq<char>> {
    let r = replace_all(replace_all(content, PRE_COMMIT_HOOK@, Seq::empty()), POST_MERGE_HOOK@, Seq::empty());
    let t = trim(join(lines(r), "\n"@));
    if t.len() == 0 {
        None
    } else {
        Some(t)
    }
}

/// What a hook file that mentions `project-memory` keeps after uninstalling (`None`:
/// remove the file).
pub fn cleaned_hook_text(content: &str) -> (r: Option<String>)
    ensures
        opt_view(r) == cleaned_text(content@),
{
    let pre = chars_of(PRE_COMMIT_HOOK);
    let post = chars_of(POST_MERGE_HOOK);
    let empty: Vec<char> = Vec::new();
    assert(empty@ =~= Seq::<char>::empty());
    let a = replace_chars(chars_of(content).as_slice(), pre.as_slice(), empty.as_slice());
    let b = replace_chars(a.as_slice(), post.as_slice(), empty.as_slice());
    let ls = lines_of(b.as_slice());
    let mut pieces: Vec<String> = Vec::new();
    let mut i: usize = 0;
    while i < ls.len()
        invariant
            i <= ls.len(),
            strs(pieces@) == char_vecs(ls@).take(i as int),
        decreases ls.len() - i,
    {
        let ghost before = strs(pieces@);
        pieces.push(string_of(ls[i].as_slice()));
        assert(strs(pieces@) =~= before.push(ls@[i as int]@));
        assert(char_vecs(ls@).take(i + 1) =~= char_vecs(ls@).take(i as int).push(ls@[i as int]@));
        i = i + 1;
    }
    assert(char_vecs(ls@).take(ls.len() as int) =~= char_vecs(ls@));
    let joined = crate::text::join_strings(pieces.as_slice(), "\n");
    let t = trim_chars(chars_of(joined.as_str()).as_slice());
    if t.len() == 0 {
        None
    } else {
        Some(string_of(t.as_slice()))
    }
}

/// A pattern longer than the text never occurs in it: replacing leaves the text as it is.
proof fn lemma_replace_longer(s: Seq<char>, p: Seq<char>, w: Seq<char>)
    requires
        p.len() > s.len(),
    ensures
        replace_all(s, p, w) == s,
    decreases s.len(),
{
    if s.len() > 0 {
        lemma_replace_longer(s.skip(1), p, w);
        assert(seq![s[0]] + s.skip(1) =~= s);
    }
}

/// Both scripts mention `project-memory`, and the pre-commit script is the longer.
proof fn lemma_scripts_marked()
    ensures
        has_sub(PRE_COMMIT_HOOK@, "project-memory"@),
        has_sub(POST_MERGE_HOOK@, "project-memory"@),
        PRE_COMMIT_HOOK@.len() > POST_MERGE_HOOK@.len() + 1,
        POST_MERGE_HOOK@.len() > 30,
{
    reveal_strlit("#!/bin/sh\n# project-memory: auto-export memories on commit\nif command -v pmem >/dev/null 2>&1; then\n    pmem export > .memory/memories.json 2>/dev/null || true\n    if [ -f .memory/memories.json ]; then\n        git add .memory/memories.json 2>/dev/null || true\n    fi\nfi\n");
    reveal_strlit("#!/bin/sh\n# project-memory: reload after merge\nif command -v pmem >/dev/null 2>&1; then\n    echo \"project-memory: memories synced\"\nfi\n");
    reveal_strlit("project-memory");
    assert(PRE_COMMIT_HOOK@.subrange(12, 26) =~= "project-memory"@);
    assert(occurs_at(PRE_COMMIT_HOOK@, "project-memory"@, 12));
    assert(POST_MERGE_HOOK@.subrange(12, 26) =~= "project-memory"@);
    assert(occurs_at(POST_MERGE_HOOK@, "project-memory"@, 12));
}

/// Installing twice changes nothing the second time: once a hook file holds a script
/// that mentions `project-memory`, a second install leaves it as it is.
pub proof fn law_install_is_idempotent(existing: Option<Seq<char>>, script: Seq<char>)
    requires
        has_sub(script, "project-memory"@),
    ensures
        installed_text(existing, script) matches Some(t) ==> installed_text(Some(t), script) is None,
{
    let j = choose|j: int| occurs_at(script, "project-memory"@, j);
    if let Some(e) = existing {
        if !has_sub(e, "project-memory"@) {
            let t = e + "\n"@ + script;
            let k = e.len() + "\n"@.len() + j;
            assert(t.subrange(k, k + "project-memory"@.len()) =~= script.subrange(j, j + "project-memory"@.len()));
            assert(occurs_at(t, "project-memory"@, k));
        }
    } else {
        assert(occurs_at(script, "project-memory"@, j));
    }
}

/// Where no occurrence of `p` begins inside `e`, replacing leaves `e` as it is and
/// goes on after it.
proof fn lemma_replace_after(e: Seq<char>, x: Seq<char>, p: Seq<char>, w: Seq<char>)
    requires
        p.len() > 0,
        forall|i: int| 0 <= i < e.len() ==> !has_prefix(#[trigger] (e + x).skip(i), p),
    ensures
        replace_all(e + x, p, w) == e + replace_all(x, p, w),
    decreases e.len(),
{
    let t = e + x;
    if e.len() == 0 {
        assert(t =~= x);
        assert(e + replace_all(x, p, w) =~= replace_all(x, p, w));
    } else {
        assert(t.skip(0) =~= t);
        assert(!has_prefix(t.skip(0), p));
        let e1 = e.skip(1);
        assert(t.skip(1) =~= e1 + x);
        assert forall|i: int| 0 <= i < e1.len() implies !has_prefix(#[trigger] (e1 + x).skip(i), p) by {
            assert((e1 + x).skip(i) =~= t.skip(i + 1));
        }
        lemma_replace_after(e1, x, p, w);
        assert(seq![t[0]] + (e1 + replace_all(x, p, w)) =~= e + replace_all(x, p, w));
    }
}

/// A text that does not mention `project-memory`, with a newline and a script after
/// it, has no occurrence of either script beginning inside that text.
proof fn lemma_no_script_inside(e: Seq<char>, script: Seq<char>, p: Seq<char>)
    requires
        !has_sub(e, "project-memory"@),
        script == PRE_COMMIT_HOOK@ || script == POST_MERGE_HOOK@ || script.len() == 0,
        p == PRE_COMMIT_HOOK@ || p == POST_MERGE_HOOK@,
    ensures
        forall|i: int| 0 <= i < e.len() ==> !has_prefix(#[trigger] (e + "\n"@ + script).skip(i), p),
{
    reveal_strlit("#!/bin/sh\n# project-memory: auto-export memories on commit\nif command -v pmem >/dev/null 2>&1; then\n    pmem export > .memory/memories.json 2>/dev/null || true\n    if [ -f .memory/memories.json ]; then\n        git add .memory/memories.json 2>/dev/null || true\n    fi\nfi\n");
    reveal_strlit("#!/bin/sh\n# project-memory: reload after merge\nif command -v pmem >/dev/null 2>&1; then\n    echo \"project-memory: memories synced\"\nfi\n");
    reveal_strlit("project-memory");
    reveal_strlit("\n");
    let pm = "project-memory"@;
    let t = e + "\n"@ + script;
    assert(p.subrange(12, 26) =~= pm);
    assert(forall|j: int| 1 <= j < 30 ==> p[j] != '#' || j == 10);
    assert(forall|j: int| 0 <= j < 30 ==> p[j] != '\n' || j == 9);
    assert forall|i: int| 0 <= i < e.len() implies !has_prefix(#[trigger] t.skip(i), p) by {
        if has_prefix(t.skip(i), p) {
            assert(t.skip(i).take(p.len() as int) == p);
            if i + 26 <= e.len() {
                assert forall|j: int| 0 <= j < 14 implies e.subrange(i + 12, i + 26)[j] == pm[j] by {
                    assert(t.skip(i).take(p.len() as int)[12 + j] == p[12 + j]);
                    assert(t[i + 12 + j] == e[i + 12 + j]);
                }
                assert(e.subrange(i + 12, i + 26) =~= pm);
                assert(occurs_at(e, pm, i + 12));
            } else {
                let k = e.len() - i;
                assert(t[e.len() as int] == '\n');
                assert(t.skip(i).take(p.len() as int)[k] == p[k]);
                assert(p[k] == '\n');
                assert(k == 9);
                assert(t.skip(i).take(p.len() as int)[10] == p[10]);
                assert(t.skip(i).take(p.len() as int)[11] == p[11]);
                if script.len() == 0 {
                    assert(t.len() == e.len() + 1);
                    assert(p.len() > 11);
                } else {
                    assert(t[e.len() + 1int] == script[0]);
                    assert(t[e.len() + 2int] == script[1]);
                    assert(script[1] == '!');
                    assert(p[11] == ' ');
                }
            }
        }
    }
}

/// The text a hook file keeps after uninstalling when `r` is what is left once the
/// scripts are out.
pub open spec fn kept_text(r: Seq<char>) -> Option<Seq<char>> {
    let t = trim(join(lines(r), "\n"@));
    if t.len() == 0 {
        None
    } else {
        Some(t)
    }
}

/// Uninstalling undoes installing into a hook file that was there before: the file
/// got a newline and the script after its text, and uninstalling takes exactly that
/// script out again, keeping the earlier text (its lines rejoined and trimmed).
pub proof fn law_uninstall_undoes_install(e: Seq<char>, script: Seq<char>)
    requires
        !has_sub(e, "project-memory"@),
        script == PRE_COMMIT_HOOK@ || script == POST_MERGE_HOOK@,
    ensures
        installed_text(Some(e), script) == Some(e + "\n"@ + script),
        cleaned_text(e + "\n"@ + script) == kept_text(e + "\n"@),
{
    lemma_scripts_marked();
    reveal_strlit("\n");
    let pre = PRE_COMMIT_HOOK@;
    let post = POST_MERGE_HOOK@;
    let none = Seq::<char>::empty();
    let nl = "\n"@;
    let t = e + nl + script;
    assert(t =~= e + (nl + script));
    assert(e + nl =~= e + nl + none);
    assert(has_prefix(pre, pre)) by {
        assert(pre.take(pre.len() as int) =~= pre);
    }
    assert(has_prefix(post, post)) by {
        assert(post.take(post.len() as int) =~= post);
    }
    assert(pre.skip(pre.len() as int) =~= none);
    assert(post.skip(post.len() as int) =~= none);
    lemma_no_script_inside(e, script, pre);
    lemma_no_script_inside(e, script, post);
    lemma_no_script_inside(e, none, post);
    lemma_no_script_inside(e, none, pre);
    assert(forall|i: int| 0 <= i < e.len() ==> (e + nl + none).skip(i) == (e + nl).skip(i));
    lemma_replace_after(e, nl, post, none);
    let ns = nl + script;
    assert(ns.skip(1) =~= script);
    assert(!has_prefix(ns, pre)) by {
        reveal_strlit("#!/bin/sh\n# project-memory: auto-export memories on commit\nif command -v pmem >/dev/null 2>&1; then\n    pmem export > .memory/memories.json 2>/dev/null || true\n    if [ -f .memory/memories.json ]; then\n        git add .memory/memories.json 2>/dev/null || true\n    fi\nfi\n");
        if pre.len() <= ns.len() {
            assert(ns.take(pre.len() as int)[0] == ns[0]);
            assert(pre[0] == '#');
        }
    }
    assert(!has_prefix(ns, post)) by {
        reveal_strlit("#!/bin/sh\n# project-memory: reload after merge\nif command -v pmem >/dev/null 2>&1; then\n    echo \"project-memory: memories synced\"\nfi\n");
        if post.len() <= ns.len() {
            assert(ns.take(post.len() as int)[0] == ns[0]);
            assert(post[0] == '#');
        }
    }
    lemma_replace_after(e, ns, pre, none);
    lemma_replace_longer(nl, post, none);
    assert(replace_all(nl, post, none) == nl);
    assert(replace_all(e + nl, post, none) == e + nl);
    assert(replace_all(none, pre, none) == none);
    assert(replace_all(none, post, none) == none);
    if script == pre {
        assert(replace_all(pre, pre, none) =~= none);
        assert(replace_all(ns, pre, none) =~= nl);
        assert(replace_all(t, pre, none) =~= e + nl);
    } else {
        lemma_replace_longer(ns, pre, none);
        assert(replace_all(t, pre, none) =~= t);
        lemma_replace_after(e, ns, post, none);
        assert(replace_all(post, post, none) =~= none);
        assert(replace_all(ns, post, none) =~= nl);
        assert(replace_all(t, post, none) =~= e + nl);
    }
}

/// Installing into a project without hooks and then uninstalling leaves no hook file:
/// each file held only its script, which uninstalling takes out, so both files go.
/// A second install leaves each file as it is.
pub proof fn law_uninstall_removes_fresh_install()
    ensures
        installed_text(None, PRE_COMMIT_HOOK@) == Some(PRE_COMMIT_HOOK@),
        installed_text(None, POST_MERGE_HOOK@) == Some(POST_MERGE_HOOK@),
        cleaned_text(PRE_COMMIT_HOOK@) is None,
        cleaned_text(POST_MERGE_HOOK@) is None,
        installed_text(Some(PRE_COMMIT_HOOK@), PRE_COMMIT_HOOK@) is None,
        installed_text(Some(POST_MERGE_HOOK@), POST_MERGE_HOOK@) is None,
{
    lemma_scripts_marked();
    let pre = PRE_COMMIT_HOOK@;
    let post = POST_MERGE_HOOK@;
    let none = Seq::<char>::empty();
    assert(has_prefix(pre, pre)) by {
        assert(pre.take(pre.len() as int) =~= pre);
    }
    assert(pre.skip(pre.len() as int) =~= none);
    assert(replace_all(none, pre, none) == none);
    assert(replace_all(pre, pre, none) =~= none);
    assert(replace_all(none, post, none) == none);
    assert(join(lines(none), "\n"@) == none);
    assert(trim(none) == none);
    lemma_replace_longer(post, pre, none);
    assert(has_prefix(post, post)) by {
        assert(post.take(post.len() as int) =~= post);
    }
    assert(post.skip(post.len() as int) =~= none);
    assert(replace_all(post, post, none) =~= none);
}

} // verus!
