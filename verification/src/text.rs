//! Text primitives on character sequences: the string handling that the
//! rest of the library is specified against.

use vstd::prelude::*;

verus! {

// ---------------------------------------------------------------------------
// Views of text collections
// ---------------------------------------------------------------------------

/// The character sequences of a sequence of strings.
pub open spec fn strs(v: Seq<String>) -> Seq<Seq<char>> {
    v.map_values(|s: String| s@)
}

/// The character sequences of a sequence of character vectors.
pub open spec fn char_vecs(v: Seq<Vec<char>>) -> Seq<Seq<char>> {
    v.map_values(|s: Vec<char>| s@)
}

// ---------------------------------------------------------------------------
// Building strings
// ---------------------------------------------------------------------------

/// `String::push`: appends one character at the end.
#[verifier::external_body]
pub(crate) fn push_char(s: &mut String, c: char)
    ensures
        final(s)@ == old(s)@.push(c),
{
    s.push(c);
}

/// The characters of a string slice, in order.
pub fn chars_of(s: &str) -> (v: Vec<char>)
    ensures
        v@ == s@,
{
    let mut v: Vec<char> = Vec::new();
    for c in it: s.chars()
        invariant
            v@ == it.seq().take(it.index() as int),
            it.seq() == s@,
    {
        v.push(c);
    }
    v
}

/// A string holding the given characters.
pub fn string_of(v: &[char]) -> (s: String)
    ensures
        s@ == v@,
{
    let mut s = String::new();
    let mut i: usize = 0;
    while i < v.len()
        invariant
            i <= v.len(),
            s@ == v@.take(i as int),
        decreases v.len() - i,
    {
        push_char(&mut s, v[i]);
        assert(v@.take(i as int).push(v@[i as int]) =~= v@.take(i + 1));
        i = i + 1;
    }
    assert(v@.take(v.len() as int) =~= v@);
    s
}

/// A string holding the characters of a string slice.
pub fn owned(s: &str) -> (r: String)
    ensures
        r@ == s@,
{
    s.to_owned()
}

/// A copy of the characters `v[a..b]`.
pub fn slice_vec(v: &[char], a: usize, b: usize) -> (r: Vec<char>)
    requires
        a <= b <= v.len(),
    ensures
        r@ == v@.subrange(a as int, b as int),
{
    let mut r: Vec<char> = Vec::new();
    let mut i = a;
    while i < b
        invariant
            a <= i <= b <= v.len(),
            r@ == v@.subrange(a as int, i as int),
        decreases b - i,
    {
        r.push(v[i]);
        assert(v@.subrange(a as int, i as int).push(v@[i as int]) =~= v@.subrange(
            a as int,
            i + 1,
        ));
        i = i + 1;
    }
    r
}

/// Appends the characters of `t` to `s`.
pub fn append_chars(s: &mut String, t: &[char])
    ensures
        final(s)@ == old(s)@ + t@,
{
    let mut i: usize = 0;
    while i < t.len()
        invariant
            i <= t.len(),
            s@ == old(s)@ + t@.take(i as int),
        decreases t.len() - i,
    {
        push_char(s, t[i]);
        assert(old(s)@ + t@.take(i as int) + seq![t@[i as int]] =~= old(s)@ + t@.take(i + 1));
        i = i + 1;
    }
    assert(t@.take(t.len() as int) =~= t@);
}

/// Appends a string slice to `s`.
pub fn append_str(s: &mut String, t: &str)
    ensures
        final(s)@ == old(s)@ + t@,
{
    s.append(t);
}

// ---------------------------------------------------------------------------
// Equality
// ---------------------------------------------------------------------------

/// Whether two character slices hold the same characters.
pub fn chars_eq(a: &[char], b: &[char]) -> (r: bool)
    ensures
        r == (a@ == b@),
{
    if a.len() != b.len() {
        return false;
    }
    let mut i: usize = 0;
    while i < a.len()
        invariant
            i <= a.len(),
            a.len() == b.len(),
            forall|k: int| 0 <= k < i ==> a@[k] == b@[k],
        decreases a.len() - i,
    {
        if a[i] != b[i] {
            return false;
        }
        i = i + 1;
    }
    assert(a@ =~= b@);
    true
}

/// Whether two strings hold the same characters.
pub fn str_eq(a: &str, b: &str) -> (r: bool)
    ensures
        r == (a@ == b@),
{
    let va = chars_of(a);
    let vb = chars_of(b);
    chars_eq(va.as_slice(), vb.as_slice())
}

/// Whether `v` holds a string equal to `s`.
pub fn contains_str(v: &[String], s: &str) -> (r: bool)
    ensures
        r == strs(v@).contains(s@),
{
    let mut i: usize = 0;
    while i < v.len()
        invariant
            i <= v.len(),
            forall|k: int| 0 <= k < i ==> v@[k]@ != s@,
        decreases v.len() - i,
    {
        if str_eq(v[i].as_str(), s) {
            assert(strs(v@)[i as int] == s@);
            return true;
        }
        i = i + 1;
    }
    assert forall|k: int| 0 <= k < strs(v@).len() implies strs(v@)[k] != s@ by {}
    false
}

// ---------------------------------------------------------------------------
// Whitespace and trimming
// ---------------------------------------------------------------------------

/// `char::is_whitespace`: the Unicode `White_Space` property.
pub open spec fn is_white_space(c: char) -> bool {
    let n = c as u32;
    ||| 9 <= n <= 13
    ||| n == 32
    ||| n == 0x85
    ||| n == 0xA0
    ||| n == 0x1680
    ||| 0x2000 <= n <= 0x200A
    ||| n == 0x2028
    ||| n == 0x2029
    ||| n == 0x202F
    ||| n == 0x205F
    ||| n == 0x3000
}

/// Whether `c` is a whitespace character.
pub fn is_ws(c: char) -> (r: bool)
    ensures
        r == is_white_space(c),
{
    let n = c as u32;
    (9 <= n && n <= 13) || n == 32 || n == 0x85 || n == 0xA0 || n == 0x1680 || (0x2000 <= n && n
        <= 0x200A) || n == 0x2028 || n == 0x2029 || n == 0x202F || n == 0x205F || n == 0x3000
}

/// `s` without its leading whitespace.
pub open spec fn trim_start(s: Seq<char>) -> Seq<char>
    decreases s.len(),
{
    if s.len() > 0 && is_white_space(s[0]) {
        trim_start(s.drop_first())
    } else {
        s
    }
}

/// `s` without its trailing whitespace.
pub open spec fn trim_end(s: Seq<char>) -> Seq<char>
    decreases s.len(),
{
    if s.len() > 0 && is_white_space(s.last()) {
        trim_end(s.drop_last())
    } else {
        s
    }
}

/// `str::trim`: `s` without leading and trailing whitespace.
pub open spec fn trim(s: Seq<char>) -> Seq<char> {
    trim_end(trim_start(s))
}

/// The index of the first character of `v` that is not whitespace (or its length).
pub fn trim_start_index(v: &[char]) -> (i: usize)
    ensures
        i <= v.len(),
        trim_start(v@) == v@.skip(i as int),
        forall|k: int| 0 <= k < i ==> is_white_space(#[trigger] v@[k]),
        i < v.len() ==> !is_white_space(v@[i as int]),
{
    let mut i: usize = 0;
    assert(v@.skip(0) =~= v@);
    while i < v.len() && is_ws(v[i])
        invariant
            i <= v.len(),
            trim_start(v@) == trim_start(v@.skip(i as int)),
            forall|k: int| 0 <= k < i ==> is_white_space(#[trigger] v@[k]),
        decreases v.len() - i,
    {
        assert(v@.skip(i as int).drop_first() =~= v@.skip(i + 1));
        i = i + 1;
    }
    i
}

/// The index just past the last character of `v[..e]` that is not whitespace (or 0).
pub fn trim_end_index(v: &[char], e: usize) -> (j: usize)
    requires
        e <= v.len(),
    ensures
        j <= e,
        trim_end(v@.take(e as int)) == v@.take(j as int),
        forall|k: int| j <= k < e ==> is_white_space(#[trigger] v@[k]),
        j > 0 ==> !is_white_space(v@[j - 1]),
{
    let mut j = e;
    while j > 0 && is_ws(v[j - 1])
        invariant
            j <= e <= v.len(),
            trim_end(v@.take(e as int)) == trim_end(v@.take(j as int)),
            forall|k: int| j <= k < e ==> is_white_space(#[trigger] v@[k]),
        decreases j,
    {
        assert(v@.take(j as int).drop_last() =~= v@.take(j - 1));
        j = j - 1;
    }
    j
}

/// `str::trim` on characters.
pub fn trim_chars(v: &[char]) -> (r: Vec<char>)
    ensures
        r@ == trim(v@),
{
    let i = trim_start_index(v);
    let t = slice_vec(v, i, v.len());
    assert(t@ =~= v@.skip(i as int));
    let j = trim_end_index(t.as_slice(), t.len());
    assert(t@.take(t.len() as int) =~= t@);
    slice_vec(t.as_slice(), 0, j)
}

/// `str::trim` on a string slice.
pub fn trim_str(s: &str) -> (r: String)
    ensures
        r@ == trim(s@),
{
    let v = chars_of(s);
    let t = trim_chars(v.as_slice());
    string_of(t.as_slice())
}

/// Whether trimming `s` leaves nothing: `s` is empty or all whitespace.
pub fn is_blank(v: &[char]) -> (r: bool)
    ensures
        r == (trim(v@).len() == 0),
{
    let t = trim_chars(v);
    t.len() == 0
}

// ---------------------------------------------------------------------------
// Prefixes and occurrences
// ---------------------------------------------------------------------------

/// `str::starts_with`.
pub open spec fn has_prefix(s: Seq<char>, p: Seq<char>) -> bool {
    p.len() <= s.len() && s.take(p.len() as int) == p
}

/// Whether `p` occurs in `s` at index `i`.
pub open spec fn occurs_at(s: Seq<char>, p: Seq<char>, i: int) -> bool {
    0 <= i && i + p.len() <= s.len() && s.subrange(i, i + p.len()) == p
}

/// `str::contains`.
pub open spec fn has_sub(s: Seq<char>, p: Seq<char>) -> bool {
    exists|i: int| occurs_at(s, p, i)
}

/// `i` is the first index at which `p` occurs in `s`.
pub open spec fn is_first_occurrence(s: Seq<char>, p: Seq<char>, i: int) -> bool {
    occurs_at(s, p, i) && forall|j: int| 0 <= j < i ==> !occurs_at(s, p, j)
}

/// Whether `s` starts with `p`.
pub fn starts_with(s: &[char], p: &[char]) -> (r: bool)
    ensures
        r == has_prefix(s@, p@),
{
    if p.len() > s.len() {
        return false;
    }
    let mut i: usize = 0;
    while i < p.len()
        invariant
            i <= p.len() <= s.len(),
            forall|k: int| 0 <= k < i ==> s@[k] == p@[k],
        decreases p.len() - i,
    {
        if s[i] != p[i] {
            assert(s@.take(p.len() as int)[i as int] != p@[i as int]);
            return false;
        }
        i = i + 1;
    }
    assert(s@.take(p.len() as int) =~= p@);
    true
}

/// Whether `p` occurs in `s` at index `i`.
pub fn matches_at(s: &[char], p: &[char], i: usize) -> (r: bool)
    ensures
        r == occurs_at(s@, p@, i as int),
{
    if i > s.len() || p.len() > s.len() - i {
        return false;
    }
    let mut k: usize = 0;
    while k < p.len()
        invariant
            k <= p.len(),
            i + p.len() <= s.len(),
            forall|m: int| 0 <= m < k ==> s@[i + m] == p@[m],
        decreases p.len() - k,
    {
        if s[i + k] != p[k] {
            assert(s@.subrange(i as int, i + p.len())[k as int] != p@[k as int]);
            return false;
        }
        k = k + 1;
    }
    assert(s@.subrange(i as int, i + p.len()) =~= p@);
    true
}

/// `str::find`: the first index at which `p` occurs in `s`.
pub fn find(s: &[char], p: &[char]) -> (r: Option<usize>)
    ensures
        match r {
            Some(i) => is_first_occurrence(s@, p@, i as int),
            None => !has_sub(s@, p@),
        },
{
    let mut i: usize = 0;
    while i < s.len()
        invariant
            i <= s.len(),
            forall|j: int| 0 <= j < i ==> !occurs_at(s@, p@, j),
        decreases s.len() - i,
    {
        if matches_at(s, p, i) {
            return Some(i);
        }
        i = i + 1;
    }
    if matches_at(s, p, i) {
        return Some(i);
    }
    assert forall|j: int| !occurs_at(s@, p@, j) by {
        if 0 <= j <= i {
        }
    }
    None
}

/// `str::contains`.
pub fn contains(s: &[char], p: &[char]) -> (r: bool)
    ensures
        r == has_sub(s@, p@),
{
    match find(s, p) {
        Some(_) => true,
        None => false,
    }
}

/// `str::contains` on string slices.
pub fn str_contains(s: &str, p: &str) -> (r: bool)
    ensures
        r == has_sub(s@, p@),
{
    let vs = chars_of(s);
    let vp = chars_of(p);
    contains(vs.as_slice(), vp.as_slice())
}

/// `str::starts_with` on string slices.
pub fn str_starts_with(s: &str, p: &str) -> (r: bool)
    ensures
        r == has_prefix(s@, p@),
{
    let vs = chars_of(s);
    let vp = chars_of(p);
    starts_with(vs.as_slice(), vp.as_slice())
}

// ---------------------------------------------------------------------------
// Single-character search and splitting
// ---------------------------------------------------------------------------

/// `i` is the first index of `c` in `s`.
pub open spec fn is_first_index(s: Seq<char>, c: char, i: int) -> bool {
    0 <= i < s.len() && s[i] == c && forall|j: int| 0 <= j < i ==> s[j] != c
}

/// The first index of `c` in `s`, or -1 when `c` does not occur.
pub open spec fn first_index(s: Seq<char>, c: char) -> int {
    if exists|i: int| is_first_index(s, c, i) {
        choose|i: int| is_first_index(s, c, i)
    } else {
        -1
    }
}

/// The first index is unique.
pub proof fn lemma_first_index(s: Seq<char>, c: char, i: int)
    requires
        is_first_index(s, c, i),
    ensures
        first_index(s, c) == i,
{
    let k = choose|k: int| is_first_index(s, c, k);
    assert(is_first_index(s, c, k));
    if k < i {
        assert(s[k] != c);
    } else if i < k {
        assert(s[i] != c);
    }
}

/// Without an occurrence the first index is -1; with one it is in range.
pub proof fn lemma_first_index_range(s: Seq<char>, c: char)
    ensures
        (forall|j: int| 0 <= j < s.len() ==> s[j] != c) ==> first_index(s, c) == -1,
        first_index(s, c) == -1 || is_first_index(s, c, first_index(s, c)),
{
}

/// The first index of `c` in `v[start..]`, relative to `start`.
pub fn find_char_from(v: &[char], start: usize, c: char) -> (r: Option<usize>)
    requires
        start <= v.len(),
    ensures
        match r {
            Some(i) => i < v.len() - start && first_index(v@.skip(start as int), c) == i,
            None => first_index(v@.skip(start as int), c) == -1,
        },
{
    let ghost t = v@.skip(start as int);
    let mut i = start;
    while i < v.len()
        invariant
            start <= i <= v.len(),
            t == v@.skip(start as int),
            forall|j: int| 0 <= j < i - start ==> t[j] != c,
        decreases v.len() - i,
    {
        if v[i] == c {
            proof {
                lemma_first_index(t, c, i - start);
            }
            return Some(i - start);
        }
        i = i + 1;
    }
    proof {
        lemma_first_index_range(t, c);
    }
    None
}

/// `str::split_once` on a character.
pub open spec fn split_once(s: Seq<char>, c: char) -> Option<(Seq<char>, Seq<char>)> {
    let i = first_index(s, c);
    if i < 0 {
        None
    } else {
        Some((s.take(i), s.skip(i + 1)))
    }
}

/// `str::split_once` on a character.
pub fn split_once_chars(s: &[char], c: char) -> (r: Option<(Vec<char>, Vec<char>)>)
    ensures
        match r {
            Some((a, b)) => split_once(s@, c) == Some((a@, b@)),
            None => split_once(s@, c) is None,
        },
{
    assert(s@.skip(0) =~= s@);
    match find_char_from(s, 0, c) {
        Some(i) => {
            let a = slice_vec(s, 0, i);
            let b = slice_vec(s, i + 1, s.len());
            assert(a@ =~= s@.take(i as int));
            assert(b@ =~= s@.skip(i + 1));
            Some((a, b))
        },
        None => None,
    }
}

/// `str::split` on a character: every piece, empty ones included.
pub open spec fn split_char(s: Seq<char>, c: char) -> Seq<Seq<char>>
    decreases s.len(),
{
    let i = first_index(s, c);
    if i < 0 {
        seq![s]
    } else {
        proof {
            lemma_first_index_range(s, c);
        }
        seq![s.take(i)] + split_char(s.skip(i + 1), c)
    }
}

/// `str::split` on a character.
pub fn split_chars(s: &[char], c: char) -> (r: Vec<Vec<char>>)
    ensures
        char_vecs(r@) == split_char(s@, c),
{
    let mut r: Vec<Vec<char>> = Vec::new();
    let mut pos: usize = 0;
    assert(s@.skip(0) =~= s@);
    loop
        invariant
            pos <= s.len(),
            split_char(s@, c) == char_vecs(r@) + split_char(s@.skip(pos as int), c),
        decreases s.len() - pos,
    {
        let ghost rest = s@.skip(pos as int);
        match find_char_from(s, pos, c) {
            Some(i) => {
                let piece = slice_vec(s, pos, pos + i);
                assert(piece@ =~= rest.take(i as int));
                assert(rest.skip(i + 1) =~= s@.skip(pos + i + 1));
                let ghost old_r = r@;
                r.push(piece);
                assert(char_vecs(r@) =~= char_vecs(old_r) + seq![piece@]);
                pos = pos + i + 1;
            },
            None => {
                let piece = slice_vec(s, pos, s.len());
                assert(piece@ =~= rest);
                let ghost old_r = r@;
                r.push(piece);
                assert(char_vecs(r@) =~= char_vecs(old_r) + seq![piece@]);
                return r;
            },
        }
    }
}

// ---------------------------------------------------------------------------
// Lines
// ---------------------------------------------------------------------------

/// A line without its carriage return, as `str::lines` strips it before a newline.
pub open spec fn strip_cr(l: Seq<char>) -> Seq<char> {
    if l.len() > 0 && l.last() == '\r' {
        l.drop_last()
    } else {
        l
    }
}

/// `str::lines`: split at `\n` (dropping a `\r` before it); a final line ending is optional.
pub open spec fn lines(s: Seq<char>) -> Seq<Seq<char>>
    decreases s.len(),
{
    if s.len() == 0 {
        seq![]
    } else {
        let i = first_index(s, '\n');
        if i < 0 {
            seq![s]
        } else {
            proof {
                lemma_first_index_range(s, '\n');
            }
            seq![strip_cr(s.take(i))] + lines(s.skip(i + 1))
        }
    }
}

/// `str::lines` on characters.
pub fn lines_of(s: &[char]) -> (r: Vec<Vec<char>>)
    ensures
        char_vecs(r@) == lines(s@),
{
    let mut r: Vec<Vec<char>> = Vec::new();
    let mut pos: usize = 0;
    assert(s@.skip(0) =~= s@);
    while pos < s.len()
        invariant
            pos <= s.len(),
            lines(s@) == char_vecs(r@) + lines(s@.skip(pos as int)),
        decreases s.len() - pos,
    {
        let ghost rest = s@.skip(pos as int);
        match find_char_from(s, pos, '\n') {
            Some(i) => {
                let mut end = pos + i;
                if end > pos && s[end - 1] == '\r' {
                    end = end - 1;
                }
                let piece = slice_vec(s, pos, end);
                assert(piece@ =~= strip_cr(rest.take(i as int)));
                assert(rest.skip(i + 1) =~= s@.skip(pos + i + 1));
                let ghost old_r = r@;
                r.push(piece);
                assert(char_vecs(r@) =~= char_vecs(old_r) + seq![piece@]);
                pos = pos + i + 1;
            },
            None => {
                let piece = slice_vec(s, pos, s.len());
                assert(piece@ =~= rest);
                let ghost old_r = r@;
                r.push(piece);
                assert(char_vecs(r@) =~= char_vecs(old_r) + seq![piece@]);
                assert(s@.skip(s.len() as int) =~= Seq::<char>::empty());
                pos = s.len();
            },
        }
    }
    assert(s@.skip(pos as int) =~= Seq::<char>::empty());
    assert(char_vecs(r@) + Seq::<Seq<char>>::empty() =~= char_vecs(r@));
    r
}

// ---------------------------------------------------------------------------
// Words
// ---------------------------------------------------------------------------

/// `i` is the index of the first whitespace character of `s` (or its length).
pub open spec fn is_word_end(s: Seq<char>, i: int) -> bool {
    0 <= i <= s.len() && (i < s.len() ==> is_white_space(s[i])) && forall|j: int|
        0 <= j < i ==> !is_white_space(s[j])
}

/// The index of the first whitespace character of `s` (or its length).
pub open spec fn word_end(s: Seq<char>) -> int {
    choose|i: int| is_word_end(s, i)
}

/// The word end exists and is unique.
pub proof fn lemma_word_end(s: Seq<char>, i: int)
    requires
        is_word_end(s, i),
    ensures
        word_end(s) == i,
{
    let k = word_end(s);
    assert(is_word_end(s, k));
    if k < i {
        assert(!is_white_space(s[k]));
    } else if i < k {
        assert(!is_white_space(s[i]));
    }
}

/// `str::split_whitespace`: the maximal runs of non-whitespace characters.
pub open spec fn words(s: Seq<char>) -> Seq<Seq<char>>
    decreases s.len(),
{
    let t = trim_start(s);
    if t.len() == 0 {
        seq![]
    } else {
        proof {
            lemma_trim_start_len(s);
            lemma_word_end_exists(t);
        }
        let i = word_end(t);
        seq![t.take(i)] + words(t.skip(i))
    }
}

/// Trimming never lengthens.
pub proof fn lemma_trim_start_len(s: Seq<char>)
    ensures
        trim_start(s).len() <= s.len(),
        trim_start(s).len() > 0 ==> !is_white_space(trim_start(s)[0]),
    decreases s.len(),
{
    if s.len() > 0 && is_white_space(s[0]) {
        lemma_trim_start_len(s.drop_first());
    }
}

/// Every sequence has a word end; it is positive when the first character is not whitespace.
pub proof fn lemma_word_end_exists(t: Seq<char>)
    ensures
        is_word_end(t, word_end(t)),
        t.len() > 0 && !is_white_space(t[0]) ==> word_end(t) > 0,
    decreases t.len(),
{
    if t.len() == 0 || is_white_space(t[0]) {
        assert(is_word_end(t, 0));
        lemma_word_end(t, 0);
    } else {
        let u = t.drop_first();
        lemma_word_end_exists(u);
        let k = word_end(u);
        assert forall|j: int| 0 <= j < k + 1 implies !is_white_space(t[j]) by {
            if j > 0 {
                assert(t[j] == u[j - 1]);
            }
        }
        assert(is_word_end(t, k + 1));
        lemma_word_end(t, k + 1);
    }
}

/// `str::split_whitespace` on characters.
pub fn words_of(s: &[char]) -> (r: Vec<Vec<char>>)
    ensures
        char_vecs(r@) == words(s@),
{
    let mut r: Vec<Vec<char>> = Vec::new();
    let mut pos: usize = 0;
    assert(s@.skip(0) =~= s@);
    loop
        invariant
            pos <= s.len(),
            words(s@) == char_vecs(r@) + words(s@.skip(pos as int)),
        decreases s.len() - pos,
    {
        let ghost rest = s@.skip(pos as int);
        while pos < s.len() && is_ws(s[pos])
            invariant
                pos <= s.len(),
                words(s@) == char_vecs(r@) + words(s@.skip(pos as int)),
                trim_start(rest) == trim_start(s@.skip(pos as int)),
                rest.len() >= s.len() - pos,
            decreases s.len() - pos,
        {
            assert(s@.skip(pos as int).drop_first() =~= s@.skip(pos + 1));
            assert(words(s@.skip(pos as int)) == words(s@.skip(pos + 1)));
            pos = pos + 1;
        }
        if pos == s.len() {
            assert(s@.skip(pos as int) =~= Seq::<char>::empty());
            assert(char_vecs(r@) + Seq::<Seq<char>>::empty() =~= char_vecs(r@));
            return r;
        }
        let ghost t = s@.skip(pos as int);
        assert(trim_start(t) == t);
        let mut e = pos;
        while e < s.len() && !is_ws(s[e])
            invariant
                pos <= e <= s.len(),
                t == s@.skip(pos as int),
                forall|j: int| pos <= j < e ==> !is_white_space(s@[j]),
            decreases s.len() - e,
        {
            e = e + 1;
        }
        proof {
            assert(is_word_end(t, e - pos));
            lemma_word_end(t, e - pos);
        }
        let piece = slice_vec(s, pos, e);
        assert(piece@ =~= t.take(e - pos));
        assert(t.skip(e - pos) =~= s@.skip(e as int));
        let ghost old_r = r@;
        r.push(piece);
        assert(char_vecs(r@) =~= char_vecs(old_r) + seq![piece@]);
        pos = e;
    }
}

// ---------------------------------------------------------------------------
// Case folding
// ---------------------------------------------------------------------------

/// The ASCII lower-case of one character: `A`..=`Z` map to `a`..=`z`, others stay.
pub open spec fn ascii_lower(c: char) -> char {
    if 'A' <= c <= 'Z' {
        ((c as u32) + 32) as char
    } else {
        c
    }
}

/// What `str::to_lowercase` returns for a character sequence.
pub uninterp spec fn lowercase(s: Seq<char>) -> Seq<char>;

/// `str::to_lowercase`: the Unicode lower-case mapping of `s`. Its result is named
/// `lowercase(s@)`; the one fact stated of it is that on ASCII text it maps each
/// character as `char::to_ascii_lowercase` does. Nothing is said of other text.
#[verifier::external_body]
pub(crate) fn to_lower(s: &str) -> (r: String)
    ensures
        r@ == lowercase(s@),
        vstd::utf8::is_ascii_chars(s@) ==> r@ == s@.map_values(|c: char| ascii_lower(c)),
{
    s.to_lowercase()
}

/// The lower-case of a text as far as it is stated: ASCII text maps character by
/// character; other text goes by `lowercase`.
pub open spec fn lower_text(s: Seq<char>) -> Seq<char> {
    if vstd::utf8::is_ascii_chars(s) {
        s.map_values(|c: char| ascii_lower(c))
    } else {
        lowercase(s)
    }
}

/// `str::to_lowercase`, with its result stated as `lower_text`.
pub fn to_lower_text(s: &str) -> (r: String)
    ensures
        r@ == lower_text(s@),
        r@ == lowercase(s@),
{
    to_lower(s)
}

// ---------------------------------------------------------------------------
// Joining
// ---------------------------------------------------------------------------

/// `[T]::join`: the pieces with `sep` between consecutive ones.
pub open spec fn join(list: Seq<Seq<char>>, sep: Seq<char>) -> Seq<char>
    decreases list.len(),
{
    if list.len() == 0 {
        seq![]
    } else if list.len() == 1 {
        list[0]
    } else {
        join(list.drop_last(), sep) + sep + list.last()
    }
}

/// Joins strings with a separator.
pub fn join_strings(list: &[String], sep: &str) -> (r: String)
    ensures
        r@ == join(strs(list@), sep@),
{
    let mut r = String::new();
    let mut i: usize = 0;
    while i < list.len()
        invariant
            i <= list.len(),
            r@ == join(strs(list@).take(i as int), sep@),
        decreases list.len() - i,
    {
        assert(strs(list@).take(i + 1).drop_last() =~= strs(list@).take(i as int));
        if i != 0 {
            r.append(sep);
        }
        r.append(list[i].as_str());
        i = i + 1;
    }
    assert(strs(list@).take(list.len() as int) =~= strs(list@));
    r
}

// ---------------------------------------------------------------------------
// Numbers
// ---------------------------------------------------------------------------

/// The decimal digit for `d < 10`.
pub open spec fn digit(d: nat) -> char {
    if d == 0 {
        '0'
    } else if d == 1 {
        '1'
    } else if d == 2 {
        '2'
    } else if d == 3 {
        '3'
    } else if d == 4 {
        '4'
    } else if d == 5 {
        '5'
    } else if d == 6 {
        '6'
    } else if d == 7 {
        '7'
    } else if d == 8 {
        '8'
    } else {
        '9'
    }
}

/// The decimal representation of `n`, as `{}` formats an unsigned integer.
pub open spec fn decimal(n: nat) -> Seq<char>
    decreases n,
{
    if n < 10 {
        seq![digit(n)]
    } else {
        decimal(n / 10).push(digit(n % 10))
    }
}

pub(crate) fn digit_char(d: usize) -> (c: char)
    requires
        d < 10,
    ensures
        c == digit(d as nat),
{
    if d == 0 {
        '0'
    } else if d == 1 {
        '1'
    } else if d == 2 {
        '2'
    } else if d == 3 {
        '3'
    } else if d == 4 {
        '4'
    } else if d == 5 {
        '5'
    } else if d == 6 {
        '6'
    } else if d == 7 {
        '7'
    } else if d == 8 {
        '8'
    } else {
        '9'
    }
}

/// Appends the decimal representation of `n` to `s`.
pub fn push_decimal(s: &mut String, n: usize)
    ensures
        final(s)@ == old(s)@ + decimal(n as nat),
    decreases n,
{
    if n < 10 {
        push_char(s, digit_char(n));
        assert(old(s)@.push(digit(n as nat)) =~= old(s)@ + decimal(n as nat));
    } else {
        push_decimal(s, n / 10);
        push_char(s, digit_char(n % 10));
        assert(old(s)@ + decimal((n / 10) as nat) + seq![digit((n % 10) as nat)] =~= old(s)@
            + decimal(n as nat));
    }
}

/// Appends the decimal representation of a 64-bit `n` to `s`.
pub fn push_decimal_u64(s: &mut String, n: u64)
    ensures
        final(s)@ == old(s)@ + decimal(n as nat),
    decreases n,
{
    if n < 10 {
        push_char(s, digit_char(n as usize));
        assert(old(s)@.push(digit(n as nat)) =~= old(s)@ + decimal(n as nat));
    } else {
        push_decimal_u64(s, n / 10);
        push_char(s, digit_char((n % 10) as usize));
        assert(old(s)@ + decimal((n / 10) as nat) + seq![digit((n % 10) as nat)] =~= old(s)@
            + decimal(n as nat));
    }
}

/// The decimal representation of `n`.
pub fn decimal_string(n: usize) -> (s: String)
    ensures
        s@ == decimal(n as nat),
{
    let mut s = String::new();
    push_decimal(&mut s, n);
    assert(Seq::<char>::empty() + decimal(n as nat) =~= decimal(n as nat));
    s
}


// ---------------------------------------------------------------------------
// Lists of strings
// ---------------------------------------------------------------------------

/// The test "is not `x`".
pub open spec fn other_than(x: Seq<char>) -> spec_fn(Seq<char>) -> bool {
    |y: Seq<char>| y != x
}

/// The test "is `x`".
pub open spec fn equal_to(x: Seq<char>) -> spec_fn(Seq<char>) -> bool {
    |y: Seq<char>| y == x
}

/// The test "is among `ids`".
pub open spec fn within(ids: Seq<Seq<char>>) -> spec_fn(Seq<char>) -> bool {
    |y: Seq<char>| ids.contains(y)
}

/// The strings of `v` other than `x`, in order (`Vec::retain` with `!=`).
pub fn strings_without(v: &[String], x: &str) -> (r: Vec<String>)
    ensures
        strs(r@) == strs(v@).filter(other_than(x@)),
{
    let ghost s = strs(v@);
    let ghost f = other_than(x@);
    let mut r: Vec<String> = Vec::new();
    let mut i: usize = 0;
    assert(s.take(0) =~= Seq::<Seq<char>>::empty());
    while i < v.len()
        invariant
            i <= v.len(),
            s == strs(v@),
            f == other_than(x@),
            strs(r@) == s.take(i as int).filter(f),
        decreases v.len() - i,
    {
        assert(s.take(i + 1).drop_last() =~= s.take(i as int));
        assert(s.take(i + 1).last() == v@[i as int]@);
        reveal_with_fuel(Seq::filter, 1);
        if !str_eq(v[i].as_str(), x) {
            let ghost before = strs(r@);
            r.push(v[i].clone());
            assert(strs(r@) =~= before.push(v@[i as int]@));
        } else {
            assert(!f(v@[i as int]@));
        }
        i = i + 1;
    }
    assert(s.take(v.len() as int) =~= s);
    r
}

/// `v` with `x` appended when it is not there yet.
pub open spec fn push_absent(v: Seq<Seq<char>>, x: Seq<char>) -> Seq<Seq<char>> {
    if v.contains(x) {
        v
    } else {
        v.push(x)
    }
}


// ---------------------------------------------------------------------------
// Ordering
// ---------------------------------------------------------------------------

/// The order of `String`: lexicographic by character code (the order of the UTF-8
/// bytes), a proper prefix first.
pub open spec fn text_less(a: Seq<char>, b: Seq<char>) -> bool
    decreases a.len(),
{
    if a.len() == 0 {
        b.len() > 0
    } else if b.len() == 0 {
        false
    } else if a[0] != b[0] {
        (a[0] as u32) < (b[0] as u32)
    } else {
        text_less(a.drop_first(), b.drop_first())
    }
}

/// The order is irreflexive.
pub proof fn lemma_text_less_irreflexive(a: Seq<char>)
    ensures
        !text_less(a, a),
    decreases a.len(),
{
    if a.len() > 0 {
        lemma_text_less_irreflexive(a.drop_first());
    }
}

/// The order is transitive.
pub proof fn lemma_text_less_transitive(a: Seq<char>, b: Seq<char>, c: Seq<char>)
    requires
        text_less(a, b),
        text_less(b, c),
    ensures
        text_less(a, c),
    decreases a.len(),
{
    if a.len() > 0 && b.len() > 0 && c.len() > 0 && a[0] == b[0] && b[0] == c[0] {
        lemma_text_less_transitive(a.drop_first(), b.drop_first(), c.drop_first());
    }
}

/// Two different texts are ordered one way or the other.
pub proof fn lemma_text_less_total(a: Seq<char>, b: Seq<char>)
    requires
        a != b,
    ensures
        text_less(a, b) || text_less(b, a),
    decreases a.len(),
{
    if a.len() > 0 && b.len() > 0 && a[0] == b[0] {
        if a.drop_first() == b.drop_first() {
            assert(a =~= seq![a[0]] + a.drop_first());
            assert(b =~= seq![b[0]] + b.drop_first());
        }
        lemma_text_less_total(a.drop_first(), b.drop_first());
    } else if a.len() > 0 && b.len() > 0 {
        let x = a[0] as u32;
        let y = b[0] as u32;
        assert(x != y) by {
            vstd::utf8::char_u32_cast(a[0], x);
            vstd::utf8::char_u32_cast(b[0], y);
        }
    } else if a.len() == 0 && b.len() == 0 {
        assert(a =~= b);
    }
}

/// Whether `a` comes before `b` in the order of `String`.
pub fn chars_less(a: &[char], b: &[char]) -> (r: bool)
    ensures
        r == text_less(a@, b@),
{
    let mut i: usize = 0;
    assert(a@.skip(0) =~= a@);
    assert(b@.skip(0) =~= b@);
    while i < a.len() && i < b.len() && a[i] == b[i]
        invariant
            i <= a.len(),
            i <= b.len(),
            text_less(a@, b@) == text_less(a@.skip(i as int), b@.skip(i as int)),
        decreases a.len() - i,
    {
        assert(a@.skip(i as int).drop_first() =~= a@.skip(i + 1));
        assert(b@.skip(i as int).drop_first() =~= b@.skip(i + 1));
        i = i + 1;
    }
    if i == a.len() {
        i < b.len()
    } else if i == b.len() {
        false
    } else {
        (a[i] as u32) < (b[i] as u32)
    }
}

/// Whether `a` comes before `b` in the order of `String`.
pub fn str_less(a: &str, b: &str) -> (r: bool)
    ensures
        r == text_less(a@, b@),
{
    let ac = chars_of(a);
    let bc = chars_of(b);
    chars_less(ac.as_slice(), bc.as_slice())
}

/// Strictly increasing in the order of `String`.
pub open spec fn strictly_sorted(v: Seq<Seq<char>>) -> bool {
    forall|i: int, j: int| 0 <= i < j < v.len() ==> text_less(v[i], v[j])
}

/// Two strictly increasing sequences with the same members are equal.
pub proof fn lemma_sorted_unique(a: Seq<Seq<char>>, b: Seq<Seq<char>>)
    requires
        strictly_sorted(a),
        strictly_sorted(b),
        forall|x: Seq<char>| a.contains(x) <==> b.contains(x),
    ensures
        a == b,
    decreases a.len() + b.len(),
{
    if a.len() == 0 {
        if b.len() > 0 {
            assert(b.contains(b[0]));
        }
        assert(a =~= b);
    } else if b.len() == 0 {
        assert(a.contains(a[0]));
    } else {
        assert(a.contains(a[0]));
        assert(b.contains(b[0]));
        let i = choose|i: int| 0 <= i < b.len() && b[i] == a[0];
        let j = choose|j: int| 0 <= j < a.len() && a[j] == b[0];
        if i > 0 {
            if j > 0 {
                lemma_text_less_transitive(a[0], a[j], b[i]);
                lemma_text_less_irreflexive(a[0]);
            } else {
                lemma_text_less_irreflexive(b[0]);
            }
        }
        assert(a[0] == b[0]);
        let a1 = a.drop_first();
        let b1 = b.drop_first();
        assert forall|x: Seq<char>| a1.contains(x) <==> b1.contains(x) by {
            if a1.contains(x) {
                let k = choose|k: int| 0 <= k < a1.len() && a1[k] == x;
                assert(a[k + 1] == x);
                assert(text_less(a[0], x));
                assert(b.contains(x));
                let m = choose|m: int| 0 <= m < b.len() && b[m] == x;
                if m == 0 {
                    lemma_text_less_irreflexive(x);
                }
                assert(b1[m - 1] == x);
            }
            if b1.contains(x) {
                let k = choose|k: int| 0 <= k < b1.len() && b1[k] == x;
                assert(b[k + 1] == x);
                assert(text_less(b[0], x));
                assert(a.contains(x));
                let m = choose|m: int| 0 <= m < a.len() && a[m] == x;
                if m == 0 {
                    lemma_text_less_irreflexive(x);
                }
                assert(a1[m - 1] == x);
            }
        }
        lemma_sorted_unique(a1, b1);
        assert(a =~= seq![a[0]] + a1);
        assert(b =~= seq![b[0]] + b1);
    }
}

/// `Vec::sort` then `Vec::dedup` on strings: the distinct strings, in increasing order.
pub fn sorted_distinct(v: &[String]) -> (r: Vec<String>)
    ensures
        strictly_sorted(strs(r@)),
        forall|x: Seq<char>| strs(r@).contains(x) <==> strs(v@).contains(x),
{
    let mut r: Vec<String> = Vec::new();
    let mut i: usize = 0;
    while i < v.len()
        invariant
            i <= v.len(),
            strictly_sorted(strs(r@)),
            forall|x: Seq<char>| strs(r@).contains(x) <==> strs(v@).take(i as int).contains(x),
        decreases v.len() - i,
    {
        let x = v[i].as_str();
        let mut p: usize = 0;
        while p < r.len() && str_less(r[p].as_str(), x)
            invariant
                p <= r.len(),
                forall|k: int| 0 <= k < p ==> text_less(strs(r@)[k], x@),
            decreases r.len() - p,
        {
            p = p + 1;
        }
        let ghost o = strs(r@);
        let ghost t0 = strs(v@).take(i as int);
        let ghost t1 = strs(v@).take(i + 1);
        assert(t1 =~= t0.push(x@));
        if p < r.len() && str_eq(r[p].as_str(), x) {
            assert forall|y: Seq<char>| strs(r@).contains(y) <==> t1.contains(y) by {
                if y == x@ {
                    assert(strs(r@)[p as int] == y);
                }
                if t1.contains(y) {
                    let k = choose|k: int| 0 <= k < i + 1 && t1[k] == y;
                    if k < i {
                        assert(t0[k] == y);
                    }
                }
                if t0.contains(y) {
                    let k = choose|k: int| 0 <= k < i && t0[k] == y;
                    assert(t1[k] == y);
                }
            }
        } else {
            assert forall|k: int| p <= k < o.len() implies text_less(x@, o[k]) by {
                if k == p {
                    assert(!text_less(o[p as int], x@));
                    assert(o[p as int] != x@);
                    lemma_text_less_total(o[p as int], x@);
                } else {
                    assert(!text_less(o[p as int], x@));
                    assert(o[p as int] != x@);
                    lemma_text_less_total(o[p as int], x@);
                    assert(text_less(o[p as int], o[k]));
                    lemma_text_less_transitive(x@, o[p as int], o[k]);
                }
            }
            r.insert(p, x.to_owned());
            assert(strs(r@) =~= o.insert(p as int, x@));
            assert forall|a: int, b: int| 0 <= a < b < strs(r@).len() implies text_less(strs(r@)[a], strs(r@)[b]) by {
                let n = strs(r@);
                if b < p {
                    assert(n[a] == o[a] && n[b] == o[b]);
                } else if b == p {
                    assert(n[a] == o[a]);
                } else if a < p {
                    assert(n[a] == o[a] && n[b] == o[b - 1]);
                    lemma_text_less_transitive(o[a], x@, o[b - 1]);
                } else if a == p {
                    assert(n[b] == o[b - 1]);
                } else {
                    assert(n[a] == o[a - 1] && n[b] == o[b - 1]);
                }
            }
            assert forall|y: Seq<char>| strs(r@).contains(y) <==> t1.contains(y) by {
                let n = strs(r@);
                if n.contains(y) {
                    let k = choose|k: int| 0 <= k < n.len() && n[k] == y;
                    if k < p {
                        assert(o[k] == y);
                    } else if k > p {
                        assert(o[k - 1] == y);
                    }
                    if y != x@ {
                        assert(o.contains(y));
                        assert(t0.contains(y));
                        let m = choose|m: int| 0 <= m < i && t0[m] == y;
                        assert(t1[m] == y);
                    } else {
                        assert(t1[i as int] == y);
                    }
                }
                if t1.contains(y) {
                    let k = choose|k: int| 0 <= k < i + 1 && t1[k] == y;
                    if k < i {
                        assert(t0[k] == y);
                        assert(o.contains(y));
                        let m = choose|m: int| 0 <= m < o.len() && o[m] == y;
                        if m < p {
                            assert(n[m] == y);
                        } else {
                            assert(n[m + 1] == y);
                        }
                    } else {
                        assert(n[p as int] == y);
                    }
                }
            }
        }
        i = i + 1;
    }
    assert(strs(v@).take(v.len() as int) =~= strs(v@));
    r
}


// ---------------------------------------------------------------------------
// Byte lengths
// ---------------------------------------------------------------------------

/// The UTF-8 encoding of a concatenation is the concatenation of the encodings.
pub proof fn lemma_encode_append(a: Seq<char>, b: Seq<char>)
    ensures
        vstd::utf8::encode_utf8(a + b) == vstd::utf8::encode_utf8(a) + vstd::utf8::encode_utf8(b),
    decreases a.len(),
{
    if a.len() > 0 {
        lemma_encode_append(a.drop_first(), b);
        assert((a + b).drop_first() =~= a.drop_first() + b);
        assert((a + b)[0] == a[0]);
    } else {
        assert(a + b =~= b);
    }
}

/// The UTF-8 encoding of one character is its scalar's encoding.
pub proof fn lemma_encode_one(c: char)
    ensures
        vstd::utf8::encode_utf8(seq![c]) == vstd::utf8::encode_scalar(c as u32),
{
    assert(seq![c].drop_first() =~= Seq::<char>::empty());
    assert(vstd::utf8::encode_utf8(Seq::<char>::empty()) == Seq::<u8>::empty());
    assert(vstd::utf8::encode_scalar(c as u32) + Seq::<u8>::empty() =~= vstd::utf8::encode_scalar(c as u32));
}

/// The UTF-8 length of one character.
pub fn char_width(c: char) -> (w: usize)
    ensures
        w == vstd::utf8::encode_scalar(c as u32).len(),
        1 <= w <= 4,
{
    let v = c as u32;
    proof {
        vstd::utf8::char_is_scalar(c);
    }
    if v <= 0x7F {
        1
    } else if v <= 0x7FF {
        2
    } else if v <= 0xFFFF {
        3
    } else {
        4
    }
}

/// The first `n` bytes end exactly where a character ends (or the text is shorter).
pub open spec fn fits_at(s: Seq<char>, n: nat) -> bool {
    vstd::utf8::encode_utf8(s).len() <= n || exists|k: int| 0 <= k <= s.len() && #[trigger] vstd::utf8::encode_utf8(s.take(k)).len() == n
}

/// The longest leading run of characters that takes at most `n` bytes.
pub open spec fn is_byte_prefix(s: Seq<char>, n: nat, k: int) -> bool {
    &&& 0 <= k <= s.len()
    &&& vstd::utf8::encode_utf8(s.take(k)).len() <= n
    &&& (k < s.len() ==> vstd::utf8::encode_utf8(s.take(k + 1)).len() > n)
}

/// The longest leading run of characters of `s` that takes at most `n` bytes.
pub open spec fn byte_cut(s: Seq<char>, n: nat) -> Seq<char> {
    s.take(choose|k: int| is_byte_prefix(s, n, k))
}

/// Longer prefixes take more bytes.
pub proof fn lemma_encode_prefix_grows(s: Seq<char>, j: int, k: int)
    requires
        0 <= j < k <= s.len(),
    ensures
        vstd::utf8::encode_utf8(s.take(j)).len() < vstd::utf8::encode_utf8(s.take(k)).len(),
{
    lemma_encode_append(s.take(j), s.subrange(j, k));
    assert(s.take(j) + s.subrange(j, k) =~= s.take(k));
    let t = s.subrange(j, k);
    assert(t.len() > 0);
    assert(vstd::utf8::encode_utf8(t) == vstd::utf8::encode_scalar(t[0] as u32) + vstd::utf8::encode_utf8(t.drop_first()));
}

/// Only one leading run is the longest within `n` bytes.
pub proof fn lemma_byte_prefix_unique(s: Seq<char>, n: nat, a: int, b: int)
    requires
        is_byte_prefix(s, n, a),
        is_byte_prefix(s, n, b),
    ensures
        a == b,
{
    if a < b {
        if a + 1 < b {
            lemma_encode_prefix_grows(s, a + 1, b);
        }
    } else if b < a {
        if b + 1 < a {
            lemma_encode_prefix_grows(s, b + 1, a);
        }
    }
}

/// The characters of `s` up to byte `n` (`&s[..n.min(s.len())]` when `n` falls on a
/// character boundary).
pub fn byte_prefix(s: &str, n: usize) -> (r: String)
    ensures
        r@ == byte_cut(s@, n as nat),
{
    let cs = chars_of(s);
    let mut used: usize = 0;
    let mut k: usize = 0;
    assert(cs@.take(0) =~= Seq::<char>::empty());
    while k < cs.len()
        invariant
            k <= cs.len(),
            cs@ == s@,
            used == vstd::utf8::encode_utf8(cs@.take(k as int)).len(),
            used <= n,
        ensures
            k <= cs.len(),
            used == vstd::utf8::encode_utf8(cs@.take(k as int)).len(),
            used <= n,
            k < cs.len() ==> vstd::utf8::encode_utf8(cs@.take(k + 1)).len() > n,
        decreases cs.len() - k,
    {
        let w = char_width(cs[k]);
        proof {
            lemma_encode_append(cs@.take(k as int), seq![cs@[k as int]]);
            assert(cs@.take(k + 1) =~= cs@.take(k as int) + seq![cs@[k as int]]);
            lemma_encode_one(cs@[k as int]);
        }
        if w > n - used {
            break;
        }
        used = used + w;
        k = k + 1;
    }
    let p = slice_vec(cs.as_slice(), 0, k);
    assert(p@ =~= s@.take(k as int));
    assert(is_byte_prefix(s@, n as nat, k as int));
    proof {
        let c = choose|c: int| is_byte_prefix(s@, n as nat, c);
        lemma_byte_prefix_unique(s@, n as nat, c, k as int);
    }
    string_of(p.as_slice())
}

} // verus!
