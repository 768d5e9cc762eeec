//! Suggestions for a partly typed search, and the words searched for most.

use vstd::prelude::*;
use crate::text::{
    strs, has_prefix, lower_text, to_lower_text, str_starts_with, words, words_of, chars_of, char_vecs,
    string_of, owned, append_str, push_char, decimal,
};
use crate::types::{Memory, MemoryView, MemoryKind, memory_views, kind_name};
use crate::store::first_n;
use crate::census::{census_by_count, is_census, most_first, tally_view};
use crate::search_v2::{key_starts, key_completions};

verus! {

/// What a suggestion completes the query to.
#[derive(Debug, Clone, Copy, PartialEq, Eq, Structural)]
pub enum SuggestionKind {
    Key,
    Tag,
    Kind,
    Content,
}

/// One suggestion and its score: higher scores come first.
#[derive(Debug, Clone)]
pub struct SearchSuggestion {
    pub text: String,
    pub kind: SuggestionKind,
    pub score: u128,
}

/// The plain value of a suggestion.
pub struct SuggestionView {
    pub text: Seq<char>,
    pub kind: SuggestionKind,
    pub score: int,
}

impl View for SearchSuggestion {
    type V = SuggestionView;

    open spec fn view(&self) -> SuggestionView {
        SuggestionView { text: self.text@, kind: self.kind, score: self.score as int }
    }
}

/// The plain values of some suggestions.
pub open spec fn suggestion_views(v: Seq<SearchSuggestion>) -> Seq<SuggestionView> {
    v.map_values(|s: SearchSuggestion| s@)
}

/// The test "its lower-cased form starts with `p`".
pub open spec fn starts_lower(p: Seq<char>) -> spec_fn(Seq<char>) -> bool {
    |t: Seq<char>| has_prefix(lower_text(t), p)
}

/// The tags of the first `k` memories whose lower-cased form starts with `p`, every
/// use counted.
pub open spec fn tag_uses(ms: Seq<MemoryView>, p: Seq<char>, k: int) -> Seq<Seq<char>>
    decreases k,
{
    if k <= 0 || k > ms.len() {
        Seq::empty()
    } else {
        tag_uses(ms, p, k - 1) + ms[k - 1].tags.filter(starts_lower(p))
    }
}

/// Key suggestions: score 100.
pub open spec fn key_suggestions(keys: Seq<Seq<char>>) -> Seq<SuggestionView> {
    keys.map_values(|k: Seq<char>| SuggestionView { text: k, kind: SuggestionKind::Key, score: 100 })
}

/// Tag suggestions from counted tags: score 50 plus the count.
pub open spec fn tag_suggestions(r: Seq<(Seq<char>, usize)>) -> Seq<SuggestionView> {
    r.map_values(|e: (Seq<char>, usize)| SuggestionView { text: e.0, kind: SuggestionKind::Tag, score: 50 + e.1 })
}

/// The counted tags whose count is above (or not above) fifty.
pub open spec fn counted_above(r: Seq<(Seq<char>, usize)>, above: bool) -> Seq<(Seq<char>, usize)> {
    r.filter(|e: (Seq<char>, usize)| (e.1 > 50) == above)
}

/// Kind suggestions: the kinds whose name starts with `p`, score 30.
pub open spec fn kind_suggestions(p: Seq<char>) -> Seq<SuggestionView> {
    seq![
        MemoryKind::Convention,
        MemoryKind::Pattern,
        MemoryKind::Decision,
        MemoryKind::Preference,
        MemoryKind::Context,
    ].filter(|k: MemoryKind| has_prefix(kind_name(k), p)).map_values(
        |k: MemoryKind| SuggestionView { text: kind_name(k), kind: SuggestionKind::Kind, score: 30 },
    )
}

/// All suggestions, highest score first, given the tags counted most first: tags
/// used more than fifty times, then keys, then the other tags, then kinds.
pub open spec fn ranked_suggestions(
    ms: Seq<MemoryView>,
    p: Seq<char>,
    r: Seq<(Seq<char>, usize)>,
) -> Seq<SuggestionView> {
    tag_suggestions(counted_above(r, true)) + key_suggestions(key_completions(ms, p))
        + tag_suggestions(counted_above(r, false)) + kind_suggestions(p)
}

/// Appends a suggestion for each counted tag above (or not above) fifty uses.
fn push_tag_suggestions(out: &mut Vec<SearchSuggestion>, r: &Vec<(String, usize)>, above: bool)
    ensures
        suggestion_views(final(out)@) == suggestion_views(old(out)@) + tag_suggestions(
            counted_above(tally_view(r@), above),
        ),
{
    let ghost t = tally_view(r@);
    let ghost f = |e: (Seq<char>, usize)| (e.1 > 50) == above;
    let ghost start = suggestion_views(out@);
    let mut i: usize = 0;
    assert(t.take(0) =~= Seq::<(Seq<char>, usize)>::empty());
    assert(t.take(0).filter(f) =~= Seq::<(Seq<char>, usize)>::empty());
    assert(tag_suggestions(Seq::<(Seq<char>, usize)>::empty()) =~= Seq::<SuggestionView>::empty());
    while i < r.len()
        invariant
            i <= r.len(),
            t == tally_view(r@),
            f == (|e: (Seq<char>, usize)| (e.1 > 50) == above),
            suggestion_views(out@) == start + tag_suggestions(t.take(i as int).filter(f)),
        decreases r.len() - i,
    {
        assert(t.take(i + 1).drop_last() =~= t.take(i as int));
        assert(t.take(i + 1).last() == (r@[i as int].0@, r@[i as int].1));
        reveal_with_fuel(Seq::filter, 1);
        let c = r[i].1;
        if (c > 50) == above {
            let ghost prev = suggestion_views(out@);
            let s = SearchSuggestion { text: r[i].0.clone(), kind: SuggestionKind::Tag, score: 50 + c as u128 };
            out.push(s);
            assert(suggestion_views(out@) =~= prev.push(s@));
            assert(tag_suggestions(t.take(i + 1).filter(f)) =~= tag_suggestions(t.take(i as int).filter(f)).push(s@));
        } else {
            assert(t.take(i + 1).filter(f) =~= t.take(i as int).filter(f));
        }
        i = i + 1;
    }
    assert(t.take(r.len() as int) =~= t);
    assert(counted_above(t, above) == t.filter(f));
}

/// Suggestions for a partly typed query, lower-cased before comparing: keys (score
/// 100) and kind names (score 30) that start with it, and tags whose lower-cased form
/// starts with it (score 50 plus their number of uses), highest score first, keys
/// and kinds in their order, ten at most. Tags with equal counts may come in either
/// order.
pub fn get_suggestions(memories: &[Memory], partial: &str) -> (r: Vec<SearchSuggestion>)
    ensures
        exists|c: Seq<(Seq<char>, usize)>|
            #[trigger] is_census(tag_uses(memory_views(memories@), lower_text(partial@), memories@.len() as int), c)
                && most_first(c) && suggestion_views(r@) == first_n(
                ranked_suggestions(memory_views(memories@), lower_text(partial@), c),
                10,
            ),
{
    let pl = to_lower_text(partial);
    let ghost p = lower_text(partial@);
    let ghost ms = memory_views(memories@);
    // keys
    let ghost f = key_starts(p);
    let mut keys: Vec<SearchSuggestion> = Vec::new();
    let mut i: usize = 0;
    assert(ms.take(0) =~= Seq::<MemoryView>::empty());
    assert(ms.take(0).filter(f) =~= Seq::<MemoryView>::empty());
    assert(key_suggestions(Seq::<Seq<char>>::empty()) =~= Seq::<SuggestionView>::empty());
    while i < memories.len()
        invariant
            i <= memories.len(),
            pl@ == p,
            ms == memory_views(memories@),
            f == key_starts(p),
            suggestion_views(keys@) == key_suggestions(ms.take(i as int).filter(f).map_values(|m: MemoryView| m.key)),
        decreases memories.len() - i,
    {
        assert(ms.take(i + 1).drop_last() =~= ms.take(i as int));
        assert(ms.take(i + 1).last() == memories@[i as int]@);
        reveal_with_fuel(Seq::filter, 1);
        let kl = to_lower_text(memories[i].key.as_str());
        if str_starts_with(kl.as_str(), pl.as_str()) {
            let ghost prev = suggestion_views(keys@);
            let s = SearchSuggestion { text: memories[i].key.clone(), kind: SuggestionKind::Key, score: 100 };
            keys.push(s);
            assert(suggestion_views(keys@) =~= prev.push(s@));
            assert(ms.take(i + 1).filter(f) == ms.take(i as int).filter(f).push(ms[i as int]));
            assert(key_suggestions(ms.take(i + 1).filter(f).map_values(|m: MemoryView| m.key)) =~= key_suggestions(
                ms.take(i as int).filter(f).map_values(|m: MemoryView| m.key),
            ).push(s@));
        } else {
            assert(ms.take(i + 1).filter(f) == ms.take(i as int).filter(f));
        }
        i = i + 1;
    }
    assert(ms.take(memories.len() as int) =~= ms);
    // tag uses
    let ghost g = starts_lower(p);
    let mut uses: Vec<String> = Vec::new();
    let mut k: usize = 0;
    while k < memories.len()
        invariant
            k <= memories.len(),
            pl@ == p,
            ms == memory_views(memories@),
            g == starts_lower(p),
            strs(uses@) == tag_uses(ms, p, k as int),
        decreases memories.len() - k,
    {
        let tags = &memories[k].tags;
        assert(ms[k as int].tags == strs(tags@));
        let ghost before = strs(uses@);
        let ghost tv = strs(tags@);
        let mut j: usize = 0;
        assert(tv.take(0) =~= Seq::<Seq<char>>::empty());
        assert(tv.take(0).filter(g) =~= Seq::<Seq<char>>::empty());
        while j < tags.len()
            invariant
                k < memories.len(),
                j <= tags.len(),
                pl@ == p,
                tags == &memories@[k as int].tags,
                tv == strs(tags@),
                g == starts_lower(p),
                strs(uses@) == before + tv.take(j as int).filter(g),
            decreases tags.len() - j,
        {
            assert(tv.take(j + 1).drop_last() =~= tv.take(j as int));
            assert(tv.take(j + 1).last() == tags@[j as int]@);
            reveal_with_fuel(Seq::filter, 1);
            let tl = to_lower_text(tags[j].as_str());
            if str_starts_with(tl.as_str(), pl.as_str()) {
                let ghost prev = strs(uses@);
                uses.push(tags[j].clone());
                assert(strs(uses@) =~= prev.push(tags@[j as int]@));
                assert(before + tv.take(j + 1).filter(g) =~= (before + tv.take(j as int).filter(g)).push(tags@[j as int]@));
            }
            j = j + 1;
        }
        assert(tv.take(tags.len() as int) =~= tv);
        k = k + 1;
    }
    let counted = census_by_count(uses.as_slice());
    let mut out: Vec<SearchSuggestion> = Vec::new();
    assert(suggestion_views(out@) =~= Seq::<SuggestionView>::empty());
    push_tag_suggestions(&mut out, &counted, true);
    let mut i: usize = 0;
    let ghost base = suggestion_views(out@);
    while i < keys.len()
        invariant
            i <= keys.len(),
            suggestion_views(out@) == base + suggestion_views(keys@).take(i as int),
        decreases keys.len() - i,
    {
        let s = SearchSuggestion { text: keys[i].text.clone(), kind: keys[i].kind, score: keys[i].score };
        let ghost prev = suggestion_views(out@);
        out.push(s);
        assert(suggestion_views(out@) =~= prev.push(s@));
        assert(suggestion_views(keys@).take(i + 1) =~= suggestion_views(keys@).take(i as int).push(s@));
        i = i + 1;
    }
    assert(suggestion_views(keys@).take(keys.len() as int) =~= suggestion_views(keys@));
    push_tag_suggestions(&mut out, &counted, false);
    let ghost kb = suggestion_views(out@);
    let all = MemoryKind::all();
    let ghost kinds = all@;
    let ghost h = |k: MemoryKind| has_prefix(kind_name(k), p);
    let mut i: usize = 0;
    assert(kinds.take(0) =~= Seq::<MemoryKind>::empty());
    assert(kinds.take(0).filter(h) =~= Seq::<MemoryKind>::empty());
    while i < all.len()
        invariant
            i <= all.len(),
            pl@ == p,
            kinds == all@,
            h == (|k: MemoryKind| has_prefix(kind_name(k), p)),
            suggestion_views(out@) == kb + kinds.take(i as int).filter(h).map_values(
                |k: MemoryKind| SuggestionView { text: kind_name(k), kind: SuggestionKind::Kind, score: 30 },
            ),
        decreases all.len() - i,
    {
        assert(kinds.take(i + 1).drop_last() =~= kinds.take(i as int));
        reveal_with_fuel(Seq::filter, 1);
        let name = all[i].to_string();
        if str_starts_with(name.as_str(), pl.as_str()) {
            let ghost prev = suggestion_views(out@);
            let s = SearchSuggestion { text: name, kind: SuggestionKind::Kind, score: 30 };
            out.push(s);
            assert(suggestion_views(out@) =~= prev.push(s@));
        }
        i = i + 1;
    }
    assert(kinds.take(all.len() as int) =~= kinds);
    let ghost whole = suggestion_views(out@);
    assert(whole =~= ranked_suggestions(ms, p, tally_view(counted@)));
    out.truncate(10);
    assert(suggestion_views(out@) =~= first_n(whole, 10));
    out
}

/// The lower-cased words of more than three bytes in a key, then each tag of the
/// memory lower-cased and counted twice: what the popularity of a word counts.
pub open spec fn memory_words(m: MemoryView) -> Seq<Seq<char>> {
    words(m.key).filter(|w: Seq<char>| vstd::utf8::encode_utf8(w).len() > 3).map_values(
        |w: Seq<char>| lower_text(w),
    ) + twice_each(m.tags.map_values(|t: Seq<char>| lower_text(t)))
}

/// Each text twice in a row.
pub open spec fn twice_each(s: Seq<Seq<char>>) -> Seq<Seq<char>>
    decreases s.len(),
{
    if s.len() == 0 {
        Seq::empty()
    } else {
        twice_each(s.drop_last()) + seq![s.last(), s.last()]
    }
}

/// The counted words of the first `k` memories.
pub open spec fn popular_words(ms: Seq<MemoryView>, k: int) -> Seq<Seq<char>>
    decreases k,
{
    if k <= 0 || k > ms.len() {
        Seq::empty()
    } else {
        popular_words(ms, k - 1) + memory_words(ms[k - 1])
    }
}

/// The ten words searched most: words of more than three bytes from keys (each use
/// counting one) and tags (each use counting two), lower-cased, most counted first.
/// Words with equal counts may come in either order.
pub fn get_popular_searches(memories: &[Memory]) -> (r: Vec<String>)
    ensures
        exists|c: Seq<(Seq<char>, usize)>|
            #[trigger] is_census(popular_words(memory_views(memories@), memories@.len() as int), c)
                && most_first(c) && strs(r@) == first_n(c.map_values(|e: (Seq<char>, usize)| e.0), 10),
{
    let ghost ms = memory_views(memories@);
    let ghost long = |w: Seq<char>| vstd::utf8::encode_utf8(w).len() > 3;
    let mut ev: Vec<String> = Vec::new();
    let mut k: usize = 0;
    while k < memories.len()
        invariant
            k <= memories.len(),
            ms == memory_views(memories@),
            long == (|w: Seq<char>| vstd::utf8::encode_utf8(w).len() > 3),
            strs(ev@) == popular_words(ms, k as int),
        decreases memories.len() - k,
    {
        let ghost before = strs(ev@);
        let kc = chars_of(memories[k].key.as_str());
        let ws = words_of(kc.as_slice());
        let ghost wv = char_vecs(ws@);
        let mut j: usize = 0;
        assert(wv.take(0) =~= Seq::<Seq<char>>::empty());
        assert(wv.take(0).filter(long) =~= Seq::<Seq<char>>::empty());
        while j < ws.len()
            invariant
                k < memories.len(),
                j <= ws.len(),
                wv == char_vecs(ws@),
                wv == words(ms[k as int].key),
                long == (|w: Seq<char>| vstd::utf8::encode_utf8(w).len() > 3),
                strs(ev@) == before + wv.take(j as int).filter(long).map_values(|w: Seq<char>| lower_text(w)),
            decreases ws.len() - j,
        {
            assert(wv.take(j + 1).drop_last() =~= wv.take(j as int));
            assert(wv.take(j + 1).last() == ws@[j as int]@);
            reveal_with_fuel(Seq::filter, 1);
            let w = string_of(ws[j].as_slice());
            if w.as_str().as_bytes().len() > 3 {
                let ghost prev = strs(ev@);
                let lw = to_lower_text(w.as_str());
                ev.push(lw);
                assert(strs(ev@) =~= prev.push(lower_text(wv[j as int])));
                assert(wv.take(j + 1).filter(long) == wv.take(j as int).filter(long).push(wv[j as int]));
                assert(wv.take(j + 1).filter(long).map_values(|w: Seq<char>| lower_text(w)) =~= wv.take(j as int).filter(
                    long,
                ).map_values(|w: Seq<char>| lower_text(w)).push(lower_text(wv[j as int])));
            } else {
                assert(wv.take(j + 1).filter(long) == wv.take(j as int).filter(long));
            }
            j = j + 1;
        }
        assert(wv.take(ws.len() as int) =~= wv);
        let ghost mid = strs(ev@);
        let tags = &memories[k].tags;
        let ghost lt = strs(tags@).map_values(|t: Seq<char>| lower_text(t));
        assert(ms[k as int].tags == strs(tags@));
        let mut j: usize = 0;
        assert(twice_each(lt.take(0)) =~= Seq::<Seq<char>>::empty());
        while j < tags.len()
            invariant
                k < memories.len(),
                j <= tags.len(),
                tags == &memories@[k as int].tags,
                lt == strs(tags@).map_values(|t: Seq<char>| lower_text(t)),
                strs(ev@) == mid + twice_each(lt.take(j as int)),
            decreases tags.len() - j,
        {
            let l1 = to_lower_text(tags[j].as_str());
            let l2 = to_lower_text(tags[j].as_str());
            let ghost prev = strs(ev@);
            ev.push(l1);
            ev.push(l2);
            assert(strs(ev@) =~= prev + seq![lt[j as int], lt[j as int]]);
            assert(lt.take(j + 1).drop_last() =~= lt.take(j as int));
            j = j + 1;
        }
        assert(lt.take(tags.len() as int) =~= lt);
        assert(strs(ev@) =~= before + memory_words(ms[k as int]));
        k = k + 1;
    }
    let counted = census_by_count(ev.as_slice());
    let mut out: Vec<String> = Vec::new();
    let ghost cv = tally_view(counted@);
    let mut i: usize = 0;
    while i < counted.len() && i < 10
        invariant
            i <= counted.len(),
            i <= 10,
            cv == tally_view(counted@),
            strs(out@) == cv.map_values(|e: (Seq<char>, usize)| e.0).take(i as int),
        decreases counted.len() - i,
    {
        let ghost prev = strs(out@);
        out.push(counted[i].0.clone());
        assert(strs(out@) =~= prev.push(cv[i as int].0));
        assert(cv.map_values(|e: (Seq<char>, usize)| e.0).take(i + 1) =~= cv.map_values(|e: (Seq<char>, usize)| e.0).take(
            i as int,
        ).push(cv[i as int].0));
        i = i + 1;
    }
    let ghost names = cv.map_values(|e: (Seq<char>, usize)| e.0);
    assert(names.len() == counted.len());
    if i == counted.len() {
        assert(names.take(i as int) =~= names);
    }
    assert(strs(out@) =~= first_n(names, 10));
    out
}

/// One line of suggestions: `  [marker] text (score)`.
pub open spec fn suggestion_line(s: SuggestionView) -> Seq<char> {
    let marker = match s.kind {
        SuggestionKind::Key => "[key]"@,
        SuggestionKind::Tag => "[tag]"@,
        SuggestionKind::Kind => "[kind]"@,
        SuggestionKind::Content => "[txt]"@,
    };
    "  "@ + marker + " "@ + s.text + " ("@ + decimal(s.score as nat) + ")\n"@
}

/// The lines of the first `k` suggestions.
pub open spec fn suggestion_lines(v: Seq<SuggestionView>, k: int) -> Seq<char>
    decreases k,
{
    if k <= 0 || k > v.len() {
        Seq::empty()
    } else {
        suggestion_lines(v, k - 1) + suggestion_line(v[k - 1])
    }
}

/// The listing of suggestions; "No suggestions found." when there are none.
pub open spec fn suggestions_text(v: Seq<SuggestionView>) -> Seq<char> {
    if v.len() == 0 {
        "No suggestions found."@
    } else {
        "Suggestions:\n"@ + suggestion_lines(v, v.len() as int)
    }
}

/// Appends the decimal digits of a 128-bit number.
fn push_decimal_u128(s: &mut String, n: u128)
    ensures
        final(s)@ == old(s)@ + decimal(n as nat),
    decreases n,
{
    if n < 10 {
        push_char(s, crate::text::digit_char(n as usize));
        assert(old(s)@.push(crate::text::digit(n as nat)) =~= old(s)@ + decimal(n as nat));
    } else {
        push_decimal_u128(s, n / 10);
        push_char(s, crate::text::digit_char((n % 10) as usize));
        assert(old(s)@ + decimal((n / 10) as nat) + seq![crate::text::digit((n % 10) as nat)] =~= old(s)@
            + decimal(n as nat));
    }
}

/// The listing of suggestions: one line each with its marker, text and score.
pub fn format_suggestions(suggestions: &[SearchSuggestion]) -> (r: String)
    ensures
        r@ == suggestions_text(suggestion_views(suggestions@)),
{
    let ghost v = suggestion_views(suggestions@);
    if suggestions.len() == 0 {
        return owned("No suggestions found.");
    }
    let mut out = owned("Suggestions:\n");
    let ghost head = out@;
    let mut i: usize = 0;
    while i < suggestions.len()
        invariant
            i <= suggestions.len(),
            v == suggestion_views(suggestions@),
            out@ == head + suggestion_lines(v, i as int),
        decreases suggestions.len() - i,
    {
        let s = &suggestions[i];
        let ghost before = out@;
        append_str(&mut out, "  ");
        let marker = match s.kind {
            SuggestionKind::Key => "[key]",
            SuggestionKind::Tag => "[tag]",
            SuggestionKind::Kind => "[kind]",
            SuggestionKind::Content => "[txt]",
        };
        append_str(&mut out, marker);
        append_str(&mut out, " ");
        append_str(&mut out, s.text.as_str());
        append_str(&mut out, " (");
        push_decimal_u128(&mut out, s.score);
        append_str(&mut out, ")\n");
        assert(out@ =~= before + suggestion_line(v[i as int]));
        i = i + 1;
    }
    out
}

} // verus!
