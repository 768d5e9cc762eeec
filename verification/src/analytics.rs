//! Statistics over the memories: totals, distributions by kind, tag and month,
//! recent activity, quality counts and the insights drawn from them. Shares and
//! growth rates, which are fractions, are computed from these counts by the caller.

use vstd::prelude::*;
use crate::text::{strs, append_str, chars_of, is_blank, trim, push_decimal};
use crate::types::{Memory, MemoryView, memory_views, kind_name};
use crate::census::{census_by_count, census_by_text, is_census, most_first, texts_ascending, tally_view};
use crate::calendar::{utc_day, utc_month, day_text, month_text};
use crate::validation::{count_upto, byte_len, whole_days, repeated_key_count, empty_count, one_if};

verus! {

/// The sum of `f(i)` over the indices below `n`.
pub open spec fn sum_upto(n: int, f: spec_fn(int) -> nat) -> nat
    decreases n,
{
    if n <= 0 {
        0
    } else {
        sum_upto(n - 1, f) + f(n - 1)
    }
}

/// The totals of the memories.
#[derive(Debug, Clone)]
pub struct OverviewStats {
    pub total_memories: usize,
    pub total_tags: usize,
    pub total_links: usize,
    pub avg_content_length: usize,
    pub oldest_memory: Option<String>,
    pub newest_memory: Option<String>,
}

/// A remark on the state of the memories.
#[derive(Debug, Clone)]
pub struct Insight {
    pub category: String,
    pub message: String,
    pub severity: String,
}

/// The plain value of an insight.
pub struct InsightView {
    pub category: Seq<char>,
    pub message: Seq<char>,
    pub severity: Seq<char>,
}

impl View for Insight {
    type V = InsightView;

    open spec fn view(&self) -> InsightView {
        InsightView { category: self.category@, message: self.message@, severity: self.severity@ }
    }
}

/// The counts behind the analytics report.
#[derive(Debug, Clone)]
pub struct AnalyticsCounts {
    pub overview: OverviewStats,
    pub by_kind: Vec<(String, usize)>,
    pub by_tag: Vec<(String, usize)>,
    pub by_month: Vec<(String, usize)>,
    pub memories_added_7d: usize,
    pub memories_added_30d: usize,
    pub memories_updated_7d: usize,
    pub memories_updated_30d: usize,
    pub avg_key_length: usize,
    pub avg_content_length: usize,
    pub memories_with_tags: usize,
    pub memories_with_links: usize,
    pub duplicate_keys: usize,
    pub empty_content: usize,
    pub insights: Vec<Insight>,
}

/// The kind name of each memory.
pub open spec fn kind_keys(ms: Seq<MemoryView>) -> Seq<Seq<char>> {
    ms.map_values(|m: MemoryView| kind_name(m.kind))
}

/// Every tag of the first `n` memories, in order, repeats included.
pub open spec fn all_tags(ms: Seq<MemoryView>, n: int) -> Seq<Seq<char>>
    decreases n,
{
    if n <= 0 {
        seq![]
    } else {
        all_tags(ms, n - 1) + ms[n - 1].tags
    }
}

/// The month of a time as chrono writes it; empty outside chrono's range of dates.
pub open spec fn month_key(t: i64) -> Seq<char> {
    match utc_month(t) {
        Some(s) => s,
        None => seq![],
    }
}

/// The creation month of each memory.
pub open spec fn month_keys(ms: Seq<MemoryView>) -> Seq<Seq<char>> {
    ms.map_values(|m: MemoryView| month_key(m.created_at))
}

/// Memory `i` is the first of those created earliest.
pub open spec fn is_oldest(ms: Seq<MemoryView>, i: int) -> bool {
    &&& 0 <= i < ms.len()
    &&& forall|j: int| 0 <= j < ms.len() ==> ms[i].created_at <= ms[j].created_at
    &&& forall|j: int| 0 <= j < i ==> ms[j].created_at > ms[i].created_at
}

/// Memory `i` is the last of those created latest.
pub open spec fn is_newest(ms: Seq<MemoryView>, i: int) -> bool {
    &&& 0 <= i < ms.len()
    &&& forall|j: int| 0 <= j < ms.len() ==> ms[j].created_at <= ms[i].created_at
    &&& forall|j: int| i < j < ms.len() ==> ms[j].created_at < ms[i].created_at
}

/// The average of a total over `n` items, rounded down; zero for no items.
pub open spec fn average(total: nat, n: nat) -> nat {
    if n == 0 {
        0
    } else {
        total / n
    }
}

/// How many memories were created (or updated) within `days` whole days of `now`.
pub open spec fn within_days(ms: Seq<MemoryView>, now: i64, days: int, by_update: bool) -> nat {
    count_upto(
        ms.len() as int,
        |i: int| whole_days(now - (if by_update { ms[i].updated_at } else { ms[i].created_at })) <= days,
    )
}

/// The insights drawn from the counts: tagging under half, linking under a fifth
/// (with more than ten memories), repeated keys, and no memory added in a week.
pub open spec fn insights_of(n: nat, with_tags: nat, with_links: nat, dup_keys: nat, added_7d: nat) -> Seq<InsightView> {
    let d = if n > 0 { n } else { 1 };
    one_if(2 * with_tags < d, InsightView {
        category: "Organization"@,
        message: "Less than 50% of memories have tags. Consider adding tags for better searchability."@,
        severity: "warning"@,
    })
    + one_if(5 * with_links < d && n > 10, InsightView {
        category: "Relationships"@,
        message: "Few memories are linked. Consider linking related memories for better context."@,
        severity: "info"@,
    })
    + one_if(dup_keys > 0, InsightView {
        category: "Quality"@,
        message: crate::text::decimal(dup_keys) + " duplicate keys found. Consider renaming for uniqueness."@,
        severity: "warning"@,
    })
    + one_if(added_7d == 0 && n > 0, InsightView {
        category: "Activity"@,
        message: "No memories added in the last 7 days. Keep your project memory up to date!"@,
        severity: "info"@,
    })
}

/// The totals that must fit in a machine word for the sums to be taken.
pub open spec fn totals_fit(ms: Seq<MemoryView>) -> bool {
    &&& sum_upto(ms.len() as int, |i: int| ms[i].tags.len()) <= usize::MAX
    &&& sum_upto(ms.len() as int, |i: int| ms[i].related_ids.len()) <= usize::MAX
    &&& sum_upto(ms.len() as int, |i: int| byte_len(ms[i].content)) <= usize::MAX
    &&& sum_upto(ms.len() as int, |i: int| byte_len(ms[i].key)) <= usize::MAX
}

/// Sums only grow.
proof fn lemma_sum_monotone(n: int, m: int, f: spec_fn(int) -> nat)
    requires
        0 <= n <= m,
    ensures
        sum_upto(n, f) <= sum_upto(m, f),
    decreases m - n,
{
    if n < m {
        lemma_sum_monotone(n, m - 1, f);
    }
}

/// The sums of tag counts, link counts, content and key lengths.
fn sums(memories: &[Memory]) -> (r: (usize, usize, usize, usize))
    requires
        totals_fit(memory_views(memories@)),
    ensures
        ({
            let ms = memory_views(memories@);
            &&& r.0 == sum_upto(ms.len() as int, |i: int| ms[i].tags.len())
            &&& r.1 == sum_upto(ms.len() as int, |i: int| ms[i].related_ids.len())
            &&& r.2 == sum_upto(ms.len() as int, |i: int| byte_len(ms[i].content))
            &&& r.3 == sum_upto(ms.len() as int, |i: int| byte_len(ms[i].key))
        }),
{
    let ghost ms = memory_views(memories@);
    let ghost ft = |i: int| ms[i].tags.len();
    let ghost fl = |i: int| ms[i].related_ids.len();
    let ghost fc = |i: int| byte_len(ms[i].content);
    let ghost fk = |i: int| byte_len(ms[i].key);
    let mut t: usize = 0;
    let mut l: usize = 0;
    let mut c: usize = 0;
    let mut k: usize = 0;
    let mut i: usize = 0;
    while i < memories.len()
        invariant
            i <= memories.len(),
            ms == memory_views(memories@),
            totals_fit(ms),
            ft == (|i: int| ms[i].tags.len()),
            fl == (|i: int| ms[i].related_ids.len()),
            fc == (|i: int| byte_len(ms[i].content)),
            fk == (|i: int| byte_len(ms[i].key)),
            t == sum_upto(i as int, ft),
            l == sum_upto(i as int, fl),
            c == sum_upto(i as int, fc),
            k == sum_upto(i as int, fk),
        decreases memories.len() - i,
    {
        let m = &memories[i];
        assert(m@ == ms[i as int]);
        proof {
            lemma_sum_monotone(i + 1, ms.len() as int, ft);
            lemma_sum_monotone(i + 1, ms.len() as int, fl);
            lemma_sum_monotone(i + 1, ms.len() as int, fc);
            lemma_sum_monotone(i + 1, ms.len() as int, fk);
        }
        t = t + m.tags.len();
        l = l + m.related_ids.len();
        c = c + m.content.as_str().as_bytes().len();
        k = k + m.key.as_str().as_bytes().len();
        i = i + 1;
    }
    (t, l, c, k)
}

/// The first memory created earliest and the last created latest.
fn extremes(memories: &[Memory]) -> (r: (usize, usize))
    requires
        memories.len() > 0,
    ensures
        is_oldest(memory_views(memories@), r.0 as int),
        is_newest(memory_views(memories@), r.1 as int),
{
    let ghost ms = memory_views(memories@);
    let mut lo: usize = 0;
    let mut hi: usize = 0;
    let mut i: usize = 1;
    while i < memories.len()
        invariant
            1 <= i <= memories.len(),
            ms == memory_views(memories@),
            lo < i,
            hi < i,
            forall|j: int| 0 <= j < i ==> ms[lo as int].created_at <= ms[j].created_at,
            forall|j: int| 0 <= j < lo ==> ms[j].created_at > ms[lo as int].created_at,
            forall|j: int| 0 <= j < i ==> ms[j].created_at <= ms[hi as int].created_at,
            forall|j: int| hi < j < i ==> ms[j].created_at < ms[hi as int].created_at,
        decreases memories.len() - i,
    {
        if memories[i].created_at < memories[lo].created_at {
            lo = i;
        }
        if memories[i].created_at >= memories[hi].created_at {
            hi = i;
        }
        i = i + 1;
    }
    (lo, hi)
}

/// How many memories were created (or updated) within `days` whole days of `now`.
fn count_within(memories: &[Memory], now: i64, days: i128, by_update: bool) -> (c: usize)
    ensures
        c == within_days(memory_views(memories@), now, days as int, by_update),
{
    let ghost ms = memory_views(memories@);
    let mut c: usize = 0;
    let mut i: usize = 0;
    while i < memories.len()
        invariant
            i <= memories.len(),
            ms == memory_views(memories@),
            c <= i,
            c == count_upto(i as int, |k: int| whole_days(now - (if by_update { ms[k].updated_at } else { ms[k].created_at })) <= days),
        decreases memories.len() - i,
    {
        let t = if by_update { memories[i].updated_at } else { memories[i].created_at };
        let age: i128 = (now as i128) - (t as i128);
        let d: i128 = if age >= 0 { age / 86_400_000_000i128 } else { -((-age) / 86_400_000_000i128) };
        if d <= days {
            c = c + 1;
        }
        i = i + 1;
    }
    c
}

/// How many memories have a tag, and how many have a link.
fn with_tags_and_links(memories: &[Memory]) -> (r: (usize, usize))
    ensures
        r.0 == count_upto(memories.len() as int, |k: int| memory_views(memories@)[k].tags.len() > 0),
        r.1 == count_upto(memories.len() as int, |k: int| memory_views(memories@)[k].related_ids.len() > 0),
        r.0 <= memories.len(),
        r.1 <= memories.len(),
{
    let ghost ms = memory_views(memories@);
    let mut a: usize = 0;
    let mut b: usize = 0;
    let mut i: usize = 0;
    while i < memories.len()
        invariant
            i <= memories.len(),
            ms == memory_views(memories@),
            a <= i,
            b <= i,
            a == count_upto(i as int, |k: int| ms[k].tags.len() > 0),
            b == count_upto(i as int, |k: int| ms[k].related_ids.len() > 0),
        decreases memories.len() - i,
    {
        if memories[i].tags.len() > 0 {
            a = a + 1;
        }
        if memories[i].related_ids.len() > 0 {
            b = b + 1;
        }
        i = i + 1;
    }
    (a, b)
}

/// How many memories have blank content.
fn blank_contents(memories: &[Memory]) -> (c: usize)
    ensures
        c == empty_count(memory_views(memories@)),
{
    let ghost ms = memory_views(memories@);
    let mut c: usize = 0;
    let mut i: usize = 0;
    while i < memories.len()
        invariant
            i <= memories.len(),
            ms == memory_views(memories@),
            c <= i,
            c == count_upto(i as int, |k: int| trim(ms[k].content).len() == 0),
        decreases memories.len() - i,
    {
        let cs = chars_of(memories[i].content.as_str());
        assert(cs@ == ms[i as int].content);
        if is_blank(cs.as_slice()) {
            c = c + 1;
        }
        i = i + 1;
    }
    c
}

/// An insight.
fn insight(category: &str, message: String, severity: &str) -> (r: Insight)
    ensures
        r@ == (InsightView { category: category@, message: message@, severity: severity@ }),
{
    Insight { category: category.to_owned(), message, severity: severity.to_owned() }
}

/// The plain values of a list of insights.
pub open spec fn insight_views(v: Seq<Insight>) -> Seq<InsightView> {
    v.map_values(|i: Insight| i@)
}

/// Draws the insights from the counts.
fn draw_insights(n: usize, with_tags: usize, with_links: usize, dup_keys: usize, added_7d: usize) -> (r: Vec<Insight>)
    requires
        with_tags <= n,
        with_links <= n,
    ensures
        insight_views(r@) == insights_of(n as nat, with_tags as nat, with_links as nat, dup_keys as nat, added_7d as nat),
{
    let d: usize = if n > 0 { n } else { 1 };
    let mut r: Vec<Insight> = Vec::new();
    let ghost s0 = insight_views(r@);
    assert(s0 =~= Seq::<InsightView>::empty());
    if (with_tags as u128) * 2 < d as u128 {
        r.push(insight("Organization", "Less than 50% of memories have tags. Consider adding tags for better searchability.".to_owned(), "warning"));
    }
    let ghost s1 = insight_views(r@);
    if (with_links as u128) * 5 < d as u128 && n > 10 {
        r.push(insight("Relationships", "Few memories are linked. Consider linking related memories for better context.".to_owned(), "info"));
    }
    let ghost s2 = insight_views(r@);
    if dup_keys > 0 {
        let mut msg = String::new();
        push_decimal(&mut msg, dup_keys);
        append_str(&mut msg, " duplicate keys found. Consider renaming for uniqueness.");
        assert(msg@ =~= crate::text::decimal(dup_keys as nat) + " duplicate keys found. Consider renaming for uniqueness."@);
        r.push(insight("Quality", msg, "warning"));
    }
    let ghost s3 = insight_views(r@);
    if added_7d == 0 && n > 0 {
        r.push(insight("Activity", "No memories added in the last 7 days. Keep your project memory up to date!".to_owned(), "info"));
    }
    assert(insight_views(r@) =~= insights_of(n as nat, with_tags as nat, with_links as nat, dup_keys as nat, added_7d as nat));
    r
}

/// The kind name of each memory.
fn kind_names(memories: &[Memory]) -> (r: Vec<String>)
    ensures
        strs(r@) == kind_keys(memory_views(memories@)),
{
    let mut r: Vec<String> = Vec::new();
    let mut i: usize = 0;
    while i < memories.len()
        invariant
            i <= memories.len(),
            strs(r@) == kind_keys(memory_views(memories@)).take(i as int),
        decreases memories.len() - i,
    {
        let ghost before = strs(r@);
        r.push(memories[i].kind.to_string());
        assert(strs(r@) =~= before.push(kind_name(memories@[i as int].kind)));
        assert(kind_keys(memory_views(memories@)).take(i + 1) =~= kind_keys(memory_views(memories@)).take(i as int).push(
            kind_name(memories@[i as int].kind),
        ));
        i = i + 1;
    }
    assert(kind_keys(memory_views(memories@)).take(memories.len() as int) =~= kind_keys(memory_views(memories@)));
    r
}

/// Every tag of every memory, in order.
pub(crate) fn tag_list(memories: &[Memory]) -> (r: Vec<String>)
    ensures
        strs(r@) == all_tags(memory_views(memories@), memories.len() as int),
{
    let ghost ms = memory_views(memories@);
    let mut r: Vec<String> = Vec::new();
    let mut i: usize = 0;
    assert(strs(r@) =~= Seq::<Seq<char>>::empty());
    while i < memories.len()
        invariant
            i <= memories.len(),
            ms == memory_views(memories@),
            strs(r@) == all_tags(ms, i as int),
        decreases memories.len() - i,
    {
        let tags = &memories[i].tags;
        let ghost base = strs(r@);
        let mut j: usize = 0;
        while j < tags.len()
            invariant
                j <= tags.len(),
                strs(r@) == base + strs(tags@).take(j as int),
            decreases tags.len() - j,
        {
            let ghost prev = strs(r@);
            r.push(tags[j].clone());
            assert(strs(r@) =~= prev.push(tags@[j as int]@));
            assert(strs(tags@).take(j + 1) =~= strs(tags@).take(j as int).push(tags@[j as int]@));
            assert(strs(r@) =~= base + strs(tags@).take(j + 1));
            j = j + 1;
        }
        assert(strs(tags@).take(tags.len() as int) =~= strs(tags@));
        assert(ms[i as int].tags == strs(tags@));
        i = i + 1;
    }
    r
}

/// The creation month of each memory.
fn month_list(memories: &[Memory]) -> (r: Vec<String>)
    ensures
        strs(r@) == month_keys(memory_views(memories@)),
{
    let mut r: Vec<String> = Vec::new();
    let mut i: usize = 0;
    while i < memories.len()
        invariant
            i <= memories.len(),
            strs(r@) == month_keys(memory_views(memories@)).take(i as int),
        decreases memories.len() - i,
    {
        let m = match month_text(memories[i].created_at) {
            Some(s) => s,
            None => String::new(),
        };
        assert(m@ == month_key(memories@[i as int].created_at));
        let ghost before = strs(r@);
        r.push(m);
        assert(strs(r@) =~= before.push(month_key(memories@[i as int].created_at)));
        assert(month_keys(memory_views(memories@)).take(i + 1) =~= month_keys(memory_views(memories@)).take(i as int).push(
            month_key(memories@[i as int].created_at),
        ));
        i = i + 1;
    }
    assert(month_keys(memory_views(memories@)).take(memories.len() as int) =~= month_keys(memory_views(memories@)));
    r
}

/// What the counts of the analytics report are for `ms` at time `now`: totals and
/// averages, the oldest and newest day, the tallies by kind and tag (most used first)
/// and by month (in order), recent activity, quality counts and the insights drawn.
pub open spec fn counts_hold(ms: Seq<MemoryView>, now: i64, r: AnalyticsCounts) -> bool {
    let n = ms.len();
    &&& r.overview.total_memories == n
    &&& r.overview.total_tags == sum_upto(n as int, |i: int| ms[i].tags.len())
    &&& r.overview.total_links == sum_upto(n as int, |i: int| ms[i].related_ids.len())
    &&& r.overview.avg_content_length == average(sum_upto(n as int, |i: int| byte_len(ms[i].content)), n)
    &&& (n == 0 ==> r.overview.oldest_memory is None && r.overview.newest_memory is None)
    &&& (n > 0 ==> exists|i: int| #[trigger] is_oldest(ms, i)
        && crate::validation::opt_view(r.overview.oldest_memory) == utc_day(ms[i].created_at))
    &&& (n > 0 ==> exists|i: int| #[trigger] is_newest(ms, i)
        && crate::validation::opt_view(r.overview.newest_memory) == utc_day(ms[i].created_at))
    &&& is_census(kind_keys(ms), tally_view(r.by_kind@)) && most_first(tally_view(r.by_kind@))
    &&& is_census(all_tags(ms, n as int), tally_view(r.by_tag@)) && most_first(tally_view(r.by_tag@))
    &&& is_census(month_keys(ms), tally_view(r.by_month@)) && texts_ascending(tally_view(r.by_month@))
    &&& r.memories_added_7d == within_days(ms, now, 7, false)
    &&& r.memories_added_30d == within_days(ms, now, 30, false)
    &&& r.memories_updated_7d == within_days(ms, now, 7, true)
    &&& r.memories_updated_30d == within_days(ms, now, 30, true)
    &&& r.avg_key_length == average(sum_upto(n as int, |i: int| byte_len(ms[i].key)), n)
    &&& r.avg_content_length == r.overview.avg_content_length
    &&& r.memories_with_tags == count_upto(n as int, |k: int| ms[k].tags.len() > 0)
    &&& r.memories_with_links == count_upto(n as int, |k: int| ms[k].related_ids.len() > 0)
    &&& r.duplicate_keys == repeated_key_count(ms)
    &&& r.empty_content == empty_count(ms)
    &&& insight_views(r.insights@) == insights_of(n, r.memories_with_tags as nat,
        r.memories_with_links as nat, r.duplicate_keys as nat, r.memories_added_7d as nat)
}

/// The counts of the analytics report as of time `now`: totals, first and last
/// creation day, distributions (kinds and tags most frequent first, months in
/// order), activity within seven and thirty days, averages, quality counts and insights.
pub fn compute_analytics_at(memories: &[Memory], now: i64) -> (r: AnalyticsCounts)
    requires
        totals_fit(memory_views(memories@)),
    ensures
        counts_hold(memory_views(memories@), now, r),
{
    let ghost ms = memory_views(memories@);
    let n = memories.len();
    let (total_tags, total_links, content_sum, key_sum) = sums(memories);
    let avg_content = if n == 0 { 0 } else { content_sum / n };
    let avg_key = if n == 0 { 0 } else { key_sum / n };
    let (oldest, newest) = if n == 0 {
        (None, None)
    } else {
        let (lo, hi) = extremes(memories);
        (day_text(memories[lo].created_at), day_text(memories[hi].created_at))
    };
    let kinds = kind_names(memories);
    let by_kind = census_by_count(kinds.as_slice());
    let tags = tag_list(memories);
    let by_tag = census_by_count(tags.as_slice());
    let months = month_list(memories);
    let by_month = census_by_text(months.as_slice());
    let added_7d = count_within(memories, now, 7, false);
    let added_30d = count_within(memories, now, 30, false);
    let updated_7d = count_within(memories, now, 7, true);
    let updated_30d = count_within(memories, now, 30, true);
    let (with_tags, with_links) = with_tags_and_links(memories);
    let dup_keys = crate::validation::repeated_keys(memories);
    let empty = blank_contents(memories);
    let insights = draw_insights(n, with_tags, with_links, dup_keys, added_7d);
    AnalyticsCounts {
        overview: OverviewStats {
            total_memories: n,
            total_tags,
            total_links,
            avg_content_length: avg_content,
            oldest_memory: oldest,
            newest_memory: newest,
        },
        by_kind,
        by_tag,
        by_month,
        memories_added_7d: added_7d,
        memories_added_30d: added_30d,
        memories_updated_7d: updated_7d,
        memories_updated_30d: updated_30d,
        avg_key_length: avg_key,
        avg_content_length: avg_content,
        memories_with_tags: with_tags,
        memories_with_links: with_links,
        duplicate_keys: dup_keys,
        empty_content: empty,
        insights,
    }
}

/// The counts of the analytics report as of now.
pub fn compute_analytics_v2(memories: &[Memory]) -> (r: AnalyticsCounts)
    requires
        totals_fit(memory_views(memories@)),
    ensures
        exists|now: i64| #[trigger] counts_hold(memory_views(memories@), now, r),
{
    let now = crate::runtime::now_micros();
    let r = compute_analytics_at(memories, now);
    assert(counts_hold(memory_views(memories@), now, r));
    r
}

/// The counts behind the short analytics report: how many memories, the tallies by
/// kind and by tag (most used first), and how many have blank content.
#[derive(Debug, Clone)]
pub struct AnalyticsSummary {
    pub total: usize,
    pub by_kind: Vec<(String, usize)>,
    pub by_tag: Vec<(String, usize)>,
    pub empty_content: usize,
}

/// The counts of the short analytics report.
pub fn compute_analytics(memories: &[Memory]) -> (r: AnalyticsSummary)
    ensures
        r.total == memories.len(),
        is_census(kind_keys(memory_views(memories@)), tally_view(r.by_kind@)),
        most_first(tally_view(r.by_kind@)),
        is_census(all_tags(memory_views(memories@), memories.len() as int), tally_view(r.by_tag@)),
        most_first(tally_view(r.by_tag@)),
        r.empty_content == empty_count(memory_views(memories@)),
{
    let kinds = kind_names(memories);
    let tags = tag_list(memories);
    AnalyticsSummary {
        total: memories.len(),
        by_kind: census_by_count(kinds.as_slice()),
        by_tag: census_by_count(tags.as_slice()),
        empty_content: blank_contents(memories),
    }
}

} // verus!
