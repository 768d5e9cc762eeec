//! Search options and completions of a partly typed query.

use vstd::prelude::*;
use crate::text::{
    strs, has_prefix, lower_text, to_lower_text, str_starts_with, sorted_distinct, strictly_sorted,
    lemma_sorted_unique, has_sub, str_contains, str_eq, contains, contains_str, chars_of, words_of, words,
    char_vecs, join, join_strings, owned,
};
use crate::types::{Memory, MemoryView, memory_views, kind_name};
use crate::store::first_n;

verus! {

/// How a search result matched its query.
#[derive(Debug, Clone, Copy, PartialEq, Eq, Structural)]
pub enum MatchType {
    Exact,
    Prefix,
    Contains,
    Fuzzy,
    Semantic,
}

/// What a search is narrowed to, and how many results it gives at most.
#[derive(Debug, Clone)]
pub struct SearchFilters {
    pub kind: Option<String>,
    pub tag: Option<String>,
    pub pinned_only: bool,
    pub limit: usize,
}

impl Default for SearchFilters {
    /// No filter, and twenty results at most.
    fn default() -> (f: Self)
        ensures
            f.kind is None,
            f.tag is None,
            !f.pinned_only,
            f.limit == 20,
    {
        SearchFilters { kind: None, tag: None, pinned_only: false, limit: 20 }
    }
}

/// The test "its lower-cased key starts with `p`".
pub open spec fn key_starts(p: Seq<char>) -> spec_fn(MemoryView) -> bool {
    |m: MemoryView| has_prefix(lower_text(m.key), p)
}

/// The keys that complete `p`, in memory order, repeats kept.
pub open spec fn key_completions(ms: Seq<MemoryView>, p: Seq<char>) -> Seq<Seq<char>> {
    ms.filter(key_starts(p)).map_values(|m: MemoryView| m.key)
}

/// `x` is a tag of some memory and its lower-cased form starts with `p`.
pub open spec fn tag_completes(ms: Seq<MemoryView>, p: Seq<char>, x: Seq<char>) -> bool {
    has_prefix(lower_text(x), p) && exists|i: int| 0 <= i < ms.len() && #[trigger] ms[i].tags.contains(x)
}

/// The tags that complete `p`, each once, in increasing order.
pub open spec fn tag_completions(ms: Seq<MemoryView>, p: Seq<char>) -> Seq<Seq<char>> {
    choose|t: Seq<Seq<char>>|
        strictly_sorted(t) && forall|x: Seq<char>| #[trigger] t.contains(x) <==> tag_completes(ms, p, x)
}

/// Completions of a partly typed query: the keys whose lower-cased form starts with
/// the lower-cased query, in memory order, then the matching tags, each once and
/// in increasing order; ten at most.
pub fn search_suggestions(memories: &[Memory], partial: &str) -> (r: Vec<String>)
    ensures
        strs(r@) == first_n(
            key_completions(memory_views(memories@), lower_text(partial@)) + tag_completions(
                memory_views(memories@),
                lower_text(partial@),
            ),
            10,
        ),
{
    let pl = to_lower_text(partial);
    let ghost p = lower_text(partial@);
    let ghost ms = memory_views(memories@);
    let ghost f = key_starts(p);
    let mut out: Vec<String> = Vec::new();
    let mut i: usize = 0;
    assert(ms.take(0) =~= Seq::<MemoryView>::empty());
    assert(ms.take(0).filter(f) =~= Seq::<MemoryView>::empty());
    while i < memories.len()
        invariant
            i <= memories.len(),
            pl@ == p,
            ms == memory_views(memories@),
            f == key_starts(p),
            strs(out@) == ms.take(i as int).filter(f).map_values(|m: MemoryView| m.key),
        decreases memories.len() - i,
    {
        assert(ms.take(i + 1).drop_last() =~= ms.take(i as int));
        assert(ms.take(i + 1).last() == memories@[i as int]@);
        reveal_with_fuel(Seq::filter, 1);
        let kl = to_lower_text(memories[i].key.as_str());
        if str_starts_with(kl.as_str(), pl.as_str()) {
            let ghost prev = strs(out@);
            out.push(memories[i].key.clone());
            assert(strs(out@) =~= prev.push(memories@[i as int].key@));
            assert(ms.take(i + 1).filter(f) == ms.take(i as int).filter(f).push(ms[i as int]));
            assert(ms.take(i + 1).filter(f).map_values(|m: MemoryView| m.key) =~= ms.take(i as int).filter(
                f,
            ).map_values(|m: MemoryView| m.key).push(ms[i as int].key));
        } else {
            assert(ms.take(i + 1).filter(f) == ms.take(i as int).filter(f));
        }
        i = i + 1;
    }
    assert(ms.take(memories.len() as int) =~= ms);
    let ghost keys = strs(out@);
    let mut cands: Vec<String> = Vec::new();
    let mut k: usize = 0;
    while k < memories.len()
        invariant
            k <= memories.len(),
            pl@ == p,
            ms == memory_views(memories@),
            forall|x: Seq<char>|
                strs(cands@).contains(x) <==> (has_prefix(lower_text(x), p) && exists|i: int|
                    0 <= i < k && #[trigger] ms[i].tags.contains(x)),
        decreases memories.len() - k,
    {
        let tags = &memories[k].tags;
        assert(ms[k as int].tags == strs(tags@));
        let ghost before = strs(cands@);
        assert(forall|x: Seq<char>|
            before.contains(x) <==> (has_prefix(lower_text(x), p) && exists|i: int|
                0 <= i < k && #[trigger] ms[i].tags.contains(x)));
        let mut j: usize = 0;
        while j < tags.len()
            invariant
                k < memories.len(),
                j <= tags.len(),
                pl@ == p,
                ms == memory_views(memories@),
                tags == &memories@[k as int].tags,
                ms[k as int].tags == strs(tags@),
                forall|x: Seq<char>|
                    before.contains(x) <==> (has_prefix(lower_text(x), p) && exists|i: int|
                        0 <= i < k && #[trigger] ms[i].tags.contains(x)),
                forall|x: Seq<char>|
                    strs(cands@).contains(x) <==> (before.contains(x) || (has_prefix(lower_text(x), p)
                        && strs(tags@).take(j as int).contains(x))),
            decreases tags.len() - j,
        {
            let tl = to_lower_text(tags[j].as_str());
            let ghost tj = tags@[j as int]@;
            assert(tl@ == lower_text(tj));
            assert(has_prefix(tl@, p) == has_prefix(lower_text(tj), p));
            let ghost prev = strs(cands@);
            assert(strs(tags@).take(j + 1) =~= strs(tags@).take(j as int).push(tags@[j as int]@));
            if str_starts_with(tl.as_str(), pl.as_str()) {
                cands.push(tags[j].clone());
                assert(strs(cands@) =~= prev.push(tags@[j as int]@));
                assert forall|x: Seq<char>| #[trigger] strs(cands@).contains(x) <==> (before.contains(x)
                    || (has_prefix(lower_text(x), p) && strs(tags@).take(j + 1).contains(x))) by {
                    if strs(cands@).contains(x) && x != tags@[j as int]@ {
                        let q = choose|q: int| 0 <= q < strs(cands@).len() && #[trigger] strs(cands@)[q] == x;
                        assert(prev[q] == x);
                    }
                    if strs(tags@).take(j + 1).contains(x) && x != tags@[j as int]@ {
                        let q = choose|q: int| 0 <= q < j + 1 && #[trigger] strs(tags@).take(j + 1)[q] == x;
                        assert(strs(tags@).take(j as int)[q] == x);
                    }
                    if prev.contains(x) {
                        let q = choose|q: int| 0 <= q < prev.len() && #[trigger] prev[q] == x;
                        assert(strs(cands@)[q] == x);
                    }
                    if x == tags@[j as int]@ {
                        assert(strs(cands@)[prev.len() as int] == x);
                        assert(strs(tags@).take(j + 1)[j as int] == x);
                    }
                }
            } else {
                assert forall|x: Seq<char>| #[trigger] strs(cands@).contains(x) <==> (before.contains(x)
                    || (has_prefix(lower_text(x), p) && strs(tags@).take(j + 1).contains(x))) by {
                    if strs(tags@).take(j + 1).contains(x) && x != tags@[j as int]@ {
                        let q = choose|q: int| 0 <= q < j + 1 && #[trigger] strs(tags@).take(j + 1)[q] == x;
                        assert(strs(tags@).take(j as int)[q] == x);
                    }
                    if strs(tags@).take(j as int).contains(x) {
                        let q = choose|q: int| 0 <= q < j && #[trigger] strs(tags@).take(j as int)[q] == x;
                        assert(strs(tags@).take(j + 1)[q] == x);
                    }
                }
            }
            j = j + 1;
        }
        assert(strs(tags@).take(tags.len() as int) =~= strs(tags@));
        assert forall|x: Seq<char>|
            #[trigger] strs(cands@).contains(x) <==> (has_prefix(lower_text(x), p) && exists|i: int|
                0 <= i < k + 1 && #[trigger] ms[i].tags.contains(x)) by {
            if has_prefix(lower_text(x), p) && (exists|i: int| 0 <= i < k + 1 && #[trigger] ms[i].tags.contains(x)) {
                let i = choose|i: int| 0 <= i < k + 1 && #[trigger] ms[i].tags.contains(x);
                if i < k {
                    assert(before.contains(x));
                } else {
                    assert(strs(tags@).contains(x));
                }
            }
            if strs(cands@).contains(x) {
                if before.contains(x) {
                    let i = choose|i: int| 0 <= i < k && #[trigger] ms[i].tags.contains(x);
                    assert(0 <= i < k + 1 && ms[i].tags.contains(x));
                } else {
                    assert(ms[k as int].tags.contains(x));
                }
            }
        }
        k = k + 1;
    }
    let tags_sorted = sorted_distinct(cands.as_slice());
    proof {
        let t = strs(tags_sorted@);
        assert forall|x: Seq<char>| #[trigger] t.contains(x) <==> tag_completes(ms, p, x) by {}
        let c = tag_completions(ms, p);
        assert(strictly_sorted(c) && forall|x: Seq<char>| #[trigger] c.contains(x) <==> tag_completes(ms, p, x));
        lemma_sorted_unique(t, c);
    }
    let mut j: usize = 0;
    let ghost base = strs(out@);
    while j < tags_sorted.len()
        invariant
            j <= tags_sorted.len(),
            strs(out@) == base + strs(tags_sorted@).take(j as int),
        decreases tags_sorted.len() - j,
    {
        out.push(tags_sorted[j].clone());
        assert(strs(tags_sorted@).take(j + 1) =~= strs(tags_sorted@).take(j as int).push(tags_sorted@[j as int]@));
        assert(base + strs(tags_sorted@).take(j + 1) =~= (base + strs(tags_sorted@).take(j as int)).push(tags_sorted@[j as int]@));
        j = j + 1;
    }
    assert(strs(tags_sorted@).take(tags_sorted.len() as int) =~= strs(tags_sorted@));
    let ghost all = strs(out@);
    out.truncate(10);
    assert(strs(out@) =~= first_n(all, 10));
    out
}

// ---------------------------------------------------------------------------
// Matching one memory against a query
// ---------------------------------------------------------------------------

/// The plain value of search filters.
pub open spec fn filters_pass(m: MemoryView, f: SearchFilters) -> bool {
    &&& (f.kind matches Some(k) ==> kind_name(m.kind) == k@)
    &&& (f.tag matches Some(t) ==> m.tags.contains(t@))
    &&& (f.pinned_only ==> m.tags.contains("pinned"@))
}

/// The filters only ever leave memories out: a memory that passes has the asked-for
/// kind, carries the asked-for tag, and is pinned when only pinned ones are asked
/// for; with no filter set, every memory passes.
pub proof fn law_filters_keep_only_matching(m: MemoryView, f: SearchFilters)
    ensures
        filters_pass(m, f) && f.tag is Some ==> m.tags.contains(f.tag->0@),
        filters_pass(m, f) && f.kind is Some ==> kind_name(m.kind) == f.kind->0@,
        filters_pass(m, f) && f.pinned_only ==> m.tags.contains("pinned"@),
        f.tag is Some && !m.tags.contains(f.tag->0@) ==> !filters_pass(m, f),
        f.tag is None && f.kind is None && !f.pinned_only ==> filters_pass(m, f),
{
}

/// How a lower-cased key matches a lower-cased query.
pub open spec fn key_match(key: Seq<char>, q: Seq<char>) -> MatchType {
    if key == q {
        MatchType::Exact
    } else if has_prefix(key, q) {
        MatchType::Prefix
    } else if has_sub(key, q) {
        MatchType::Contains
    } else {
        MatchType::Fuzzy
    }
}

/// A key matches exactly when it is the query, as a prefix when it starts with the
/// query and is longer, as contained when the query stands inside it but not at its
/// start, and only fuzzily when the query is nowhere in it; a closer kind of match
/// earns more points.
pub proof fn law_key_match_kinds(key: Seq<char>, q: Seq<char>)
    ensures
        key_match(key, q) == MatchType::Exact <==> key == q,
        key_match(key, q) == MatchType::Prefix <==> (key != q && has_prefix(key, q)),
        key_match(key, q) == MatchType::Contains <==> (!has_prefix(key, q) && has_sub(key, q)),
        key_match(key, q) == MatchType::Fuzzy <==> !has_sub(key, q),
        key_points(MatchType::Exact) > key_points(MatchType::Prefix) > key_points(MatchType::Contains)
            > key_points(MatchType::Fuzzy),
{
    if key == q {
        assert(key.subrange(0, q.len() as int) =~= q);
        assert(crate::text::occurs_at(key, q, 0));
    } else if has_prefix(key, q) {
        assert(key.subrange(0, q.len() as int) =~= key.take(q.len() as int));
        assert(crate::text::occurs_at(key, q, 0));
    }
}

/// The points of a key match: exact, prefix, contained, or none.
pub open spec fn key_points(t: MatchType) -> nat {
    match t {
        MatchType::Exact => 100,
        MatchType::Prefix => 80,
        MatchType::Contains => 60,
        _ => 0,
    }
}

/// The points of the first `i` query words: ten for each found in the key, five for
/// each found in the content.
pub open spec fn word_points(key: Seq<char>, content: Seq<char>, ws: Seq<Seq<char>>, i: int) -> nat
    decreases i,
{
    if i <= 0 || i > ws.len() {
        0
    } else {
        word_points(key, content, ws, i - 1) + (if has_sub(key, ws[i - 1]) { 10nat } else { 0nat }) + (if has_sub(
            content,
            ws[i - 1],
        ) {
            5nat
        } else {
            0nat
        })
    }
}

proof fn lemma_word_points_bound(key: Seq<char>, content: Seq<char>, ws: Seq<Seq<char>>, i: int)
    requires
        0 <= i <= ws.len(),
    ensures
        word_points(key, content, ws, i) <= 15 * i,
    decreases i,
{
    if i > 0 {
        lemma_word_points_bound(key, content, ws, i - 1);
    }
}

/// The lower-cased tags of a memory, joined by spaces.
pub open spec fn tags_text(m: MemoryView) -> Seq<char> {
    lower_text(join(m.tags, " "@))
}

/// The fields a query was found in: the key (when it matched), the content, the tags.
pub open spec fn fields_matched(m: MemoryView, q: Seq<char>) -> Seq<Seq<char>> {
    (if key_match(lower_text(m.key), q) != MatchType::Fuzzy { seq!["key"@] } else { Seq::empty() }) + (if has_sub(
        lower_text(m.content),
        q,
    ) {
        seq!["content"@]
    } else {
        Seq::empty()
    }) + (if has_sub(tags_text(m), q) { seq!["tags"@] } else { Seq::empty() })
}

/// The whole-number points of the texts: the key match, forty for the content, fifty
/// for the tags, and the points of the query's words.
pub open spec fn text_points(m: MemoryView, q: Seq<char>) -> nat {
    key_points(key_match(lower_text(m.key), q)) + (if has_sub(lower_text(m.content), q) { 40nat } else { 0nat })
        + (if has_sub(tags_text(m), q) { 50nat } else { 0nat }) + word_points(
        lower_text(m.key),
        lower_text(m.content),
        words(q),
        words(q).len() as int,
    )
}

/// Microseconds in a day.
pub open spec fn day_micros() -> int {
    86_400_000_000
}

/// The points of recency: five when updated less than a week before `now`, two when
/// less than thirty days before, else none.
pub open spec fn recency_points(updated_at: i64, now: i64) -> nat {
    if now - updated_at < 7 * day_micros() {
        5
    } else if now - updated_at < 30 * day_micros() {
        2
    } else {
        0
    }
}

/// What matching a memory against a query gives, apart from how alike the texts
/// are: how the key matched, which fields matched, the points of the texts and the
/// points of recency.
pub struct SearchMatch {
    pub match_type: MatchType,
    pub matched_fields: Vec<String>,
    pub text_points: u128,
    pub recency_points: u8,
}

/// Matches a memory against a query at time `now`: `None` when the filters leave it
/// out (another kind, a missing tag, or not pinned when only pinned ones are asked
/// for); else how it matched, in lower case throughout.
pub fn search_match(m: &Memory, query: &str, filters: &SearchFilters, now: i64) -> (r: Option<SearchMatch>)
    ensures
        r is None <==> !filters_pass(m@, *filters),
        r is Some && filters.tag is Some ==> m@.tags.contains(filters.tag->0@),
        r is Some && filters.kind is Some ==> kind_name(m@.kind) == filters.kind->0@,
        r is Some && filters.pinned_only ==> m@.tags.contains("pinned"@),
        r matches Some(sm) ==> {
            let q = lower_text(query@);
            &&& sm.match_type == key_match(lower_text(m@.key), q)
            &&& strs(sm.matched_fields@) == fields_matched(m@, q)
            &&& sm.text_points == text_points(m@, q)
            &&& sm.recency_points == recency_points(m.updated_at, now)
        },
{
    match &filters.kind {
        Some(k) => {
            if !str_eq(m.kind.to_string().as_str(), k.as_str()) {
                return None;
            }
        },
        None => {},
    }
    match &filters.tag {
        Some(t) => {
            if !contains_str(m.tags.as_slice(), t.as_str()) {
                return None;
            }
        },
        None => {},
    }
    if filters.pinned_only && !contains_str(m.tags.as_slice(), "pinned") {
        return None;
    }
    let q = to_lower_text(query);
    let key = to_lower_text(m.key.as_str());
    let content = to_lower_text(m.content.as_str());
    let tags = to_lower_text(join_strings(m.tags.as_slice(), " ").as_str());
    let ghost qv = lower_text(query@);
    let mut fields: Vec<String> = Vec::new();
    let mut points: u128 = 0;
    let match_type = if str_eq(key.as_str(), q.as_str()) {
        MatchType::Exact
    } else if str_starts_with(key.as_str(), q.as_str()) {
        MatchType::Prefix
    } else if str_contains(key.as_str(), q.as_str()) {
        MatchType::Contains
    } else {
        MatchType::Fuzzy
    };
    match match_type {
        MatchType::Exact => points = 100,
        MatchType::Prefix => points = 80,
        MatchType::Contains => points = 60,
        _ => {},
    }
    if !matches!(match_type, MatchType::Fuzzy) {
        fields.push(owned("key"));
    }
    if str_contains(content.as_str(), q.as_str()) {
        points = points + 40;
        fields.push(owned("content"));
    }
    if str_contains(tags.as_str(), q.as_str()) {
        points = points + 50;
        fields.push(owned("tags"));
    }
    assert(strs(fields@) =~= fields_matched(m@, qv));
    let ghost head = points;
    let ws = words_of(chars_of(q.as_str()).as_slice());
    let kc = chars_of(key.as_str());
    let cc = chars_of(content.as_str());
    let ghost wv = char_vecs(ws@);
    let mut i: usize = 0;
    while i < ws.len()
        invariant
            i <= ws.len(),
            wv == char_vecs(ws@),
            wv == words(qv),
            kc@ == lower_text(m@.key),
            cc@ == lower_text(m@.content),
            head <= 190,
            points == head + word_points(kc@, cc@, wv, i as int),
        decreases ws.len() - i,
    {
        proof {
            lemma_word_points_bound(kc@, cc@, wv, i as int);
        }
        assert(wv[i as int] == ws@[i as int]@);
        if contains(kc.as_slice(), ws[i].as_slice()) {
            points = points + 10;
        }
        if contains(cc.as_slice(), ws[i].as_slice()) {
            points = points + 5;
        }
        i = i + 1;
    }
    let day: i128 = 86_400_000_000;
    let age: i128 = now as i128 - m.updated_at as i128;
    let recency: u8 = if age < 7 * day {
        5
    } else if age < 30 * day {
        2
    } else {
        0
    };
    Some(SearchMatch { match_type, matched_fields: fields, text_points: points, recency_points: recency })
}

} // verus!
