//! Search highlighting: each occurrence of a query word, found without regard to
//! case, is wrapped in `**` in the text as written.

use vstd::prelude::*;
use crate::text::{strs, has_prefix, occurs_at, ascii_lower, chars_of, string_of, matches_at};

verus! {

/// ASCII text with each capital letter lowered.
pub open spec fn lower_ascii(t: Seq<char>) -> Seq<char> {
    t.map_values(|c: char| ascii_lower(c))
}

/// `t` with each occurrence of `w` in its lower-cased form `l` (from the left, not
/// overlapping) wrapped in `**`, the characters as `t` writes them.
pub open spec fn marked(t: Seq<char>, l: Seq<char>, w: Seq<char>) -> Seq<char>
    decreases t.len(),
{
    if t.len() == 0 {
        Seq::empty()
    } else if 0 < w.len() <= t.len() && has_prefix(l, w) {
        "**"@ + t.take(w.len() as int) + "**"@ + marked(t.skip(w.len() as int), l.skip(w.len() as int), w)
    } else {
        seq![t[0]] + marked(t.skip(1), l.skip(1), w)
    }
}

/// ASCII `t` with the words marked one after another; an empty word marks nothing.
pub open spec fn highlighted(t: Seq<char>, words: Seq<Seq<char>>) -> Seq<char>
    decreases words.len(),
{
    if words.len() == 0 {
        t
    } else {
        let r = highlighted(t, words.drop_last());
        let w = words.last();
        if w.len() == 0 {
            r
        } else {
            marked(r, lower_ascii(r), w)
        }
    }
}

/// Marking keeps ASCII text ASCII.
proof fn lemma_marked_ascii(t: Seq<char>, l: Seq<char>, w: Seq<char>)
    requires
        vstd::utf8::is_ascii_chars(t),
    ensures
        vstd::utf8::is_ascii_chars(marked(t, l, w)),
    decreases t.len(),
{
    reveal_strlit("**");
    if t.len() > 0 {
        if 0 < w.len() <= t.len() && has_prefix(l, w) {
            lemma_marked_ascii(t.skip(w.len() as int), l.skip(w.len() as int), w);
            let m = "**"@ + t.take(w.len() as int) + "**"@ + marked(t.skip(w.len() as int), l.skip(w.len() as int), w);
            assert forall|i: int| 0 <= i < m.len() implies '\0' <= #[trigger] m[i] <= '\u{7f}' by {
                if 2 <= i < 2 + w.len() {
                    assert(m[i] == t[i - 2]);
                }
            }
        } else {
            lemma_marked_ascii(t.skip(1), l.skip(1), w);
            let m = seq![t[0]] + marked(t.skip(1), l.skip(1), w);
            assert forall|i: int| 0 <= i < m.len() implies '\0' <= #[trigger] m[i] <= '\u{7f}' by {
                if i == 0 {
                    assert(m[0] == t[0]);
                }
            }
        }
    }
}

/// The characters of `t` lowered as ASCII.
fn lowered(t: &[char]) -> (r: Vec<char>)
    ensures
        r@ == lower_ascii(t@),
{
    let mut r: Vec<char> = Vec::new();
    let mut i: usize = 0;
    while i < t.len()
        invariant
            i <= t.len(),
            r@ == lower_ascii(t@.take(i as int)),
        decreases t.len() - i,
    {
        let c = t[i];
        let d = if 'A' <= c && c <= 'Z' { ((c as u8) + 32) as char } else { c };
        assert(d == ascii_lower(c)) by {
            if 'A' <= c && c <= 'Z' {
                assert((((c as u8) + 32) as char) == (((c as u32) + 32) as char));
            }
        }
        r.push(d);
        assert(lower_ascii(t@.take(i + 1)) =~= lower_ascii(t@.take(i as int)).push(ascii_lower(c)));
        i = i + 1;
    }
    assert(t@.take(t.len() as int) =~= t@);
    r
}

/// Wraps each occurrence of `w` in the ASCII-lowered `t` in `**`.
fn mark_word(t: &[char], w: &[char]) -> (r: Vec<char>)
    requires
        w.len() > 0,
    ensures
        r@ == marked(t@, lower_ascii(t@), w@),
{
    let l = lowered(t);
    let ghost lv = l@;
    let mut out: Vec<char> = Vec::new();
    let mut i: usize = 0;
    assert(t@.skip(0) =~= t@);
    assert(lv.skip(0) =~= lv);
    while i < t.len()
        invariant
            i <= t.len(),
            l.len() == t.len(),
            lv == l@,
            w.len() > 0,
            out@ + marked(t@.skip(i as int), lv.skip(i as int), w@) == marked(t@, lv, w@),
        decreases t.len() - i,
    {
        let ghost rest = t@.skip(i as int);
        let ghost lrest = lv.skip(i as int);
        let ghost before = out@;
        if matches_at(l.as_slice(), w, i) {
            assert(lrest.take(w.len() as int) =~= lv.subrange(i as int, i + w.len()));
            assert(has_prefix(lrest, w@));
            assert(rest.skip(w.len() as int) =~= t@.skip(i + w.len()));
            assert(lrest.skip(w.len() as int) =~= lv.skip(i + w.len()));
            out.push('*');
            out.push('*');
            proof {
                reveal_strlit("**");
                assert(out@ =~= before + "**"@ + t@.subrange(i as int, i as int));
            }
            let mut k: usize = 0;
            while k < w.len()
                invariant
                    k <= w.len(),
                    i + w.len() <= t.len(),
                    out@ == before + "**"@ + t@.subrange(i as int, i + k),
                decreases w.len() - k,
            {
                proof {
                    reveal_strlit("**");
                }
                out.push(t[i + k]);
                assert(t@.subrange(i as int, i + k + 1) =~= t@.subrange(i as int, i + k).push(t@[i + k]));
                k = k + 1;
            }
            out.push('*');
            out.push('*');
            proof {
                reveal_strlit("**");
                assert(rest.take(w.len() as int) =~= t@.subrange(i as int, i + w.len()));
                assert(out@ =~= before + "**"@ + rest.take(w.len() as int) + "**"@);
                assert(out@ + marked(t@.skip(i + w.len()), lv.skip(i + w.len()), w@) =~= before + ("**"@
                    + rest.take(w.len() as int) + "**"@ + marked(rest.skip(w.len() as int), lrest.skip(
                    w.len() as int), w@)));
            }
            i = i + w.len();
        } else {
            assert(!(0 < w.len() <= rest.len() && has_prefix(lrest, w@))) by {
                if 0 < w.len() <= rest.len() && has_prefix(lrest, w@) {
                    assert(lv.subrange(i as int, i + w.len()) =~= lrest.take(w.len() as int));
                }
            }
            assert(rest.skip(1) =~= t@.skip(i + 1));
            assert(lrest.skip(1) =~= lv.skip(i + 1));
            out.push(t[i]);
            assert(out@ + marked(t@.skip(i + 1), lv.skip(i + 1), w@) =~= before + (seq![rest[0]] + marked(
                rest.skip(1), lrest.skip(1), w@)));
            i = i + 1;
        }
    }
    assert(t@.skip(i as int).len() == 0);
    assert(out@ + Seq::<char>::empty() =~= out@);
    out
}

/// `text` with each query word marked in turn: every occurrence of the word in the
/// lower-cased text, from the left and not overlapping, wrapped in `**` as the text
/// writes it. Empty words are passed over.
pub fn highlight_text(text: &str, words: &[String]) -> (r: String)
    requires
        vstd::utf8::is_ascii_chars(text@),
    ensures
        r@ == highlighted(text@, strs(words@)),
{
    let mut result = chars_of(text);
    let mut j: usize = 0;
    assert(strs(words@).take(0) =~= Seq::<Seq<char>>::empty());
    while j < words.len()
        invariant
            j <= words.len(),
            vstd::utf8::is_ascii_chars(text@),
            vstd::utf8::is_ascii_chars(result@),
            result@ == highlighted(text@, strs(words@).take(j as int)),
        decreases words.len() - j,
    {
        let w = chars_of(words[j].as_str());
        assert(strs(words@).take(j + 1).drop_last() =~= strs(words@).take(j as int));
        assert(strs(words@).take(j + 1).last() == words@[j as int]@);
        if w.len() > 0 {
            let next = mark_word(result.as_slice(), w.as_slice());
            proof {
                lemma_marked_ascii(result@, lower_ascii(result@), w@);
            }
            result = next;
        }
        j = j + 1;
    }
    assert(strs(words@).take(words.len() as int) =~= strs(words@));
    string_of(result.as_slice())
}

} // verus!
