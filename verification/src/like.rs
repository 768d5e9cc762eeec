//! Text search as the store's query language does it: a `LIKE '%text%'` test, where
//! `%` in the text stands for any run of characters, `_` for any one character,
//! and letters match without regard to ASCII case; and the JSON form in which a
//! list of tags is kept and searched.

use vstd::prelude::*;
use crate::text::{ascii_lower, join, strs, split_char, char_vecs, split_chars, chars_of};

verus! {

// ---------------------------------------------------------------------------
// Matching
// ---------------------------------------------------------------------------

/// One pattern character against one text character: `_` matches any character,
/// every other one matches itself up to ASCII case.
pub open spec fn like_char(t: char, p: char) -> bool {
    p == '_' || ascii_lower(t) == ascii_lower(p)
}

/// A pattern piece without `%` matches the text at index `i`.
pub open spec fn piece_at(t: Seq<char>, p: Seq<char>, i: int) -> bool {
    &&& 0 <= i
    &&& i + p.len() <= t.len()
    &&& forall|j: int| 0 <= j < p.len() ==> like_char(#[trigger] t[i + j], p[j])
}

/// The pieces are found in the text in order and without overlap, the first at
/// or after index `from`.
pub open spec fn pieces_from(t: Seq<char>, pieces: Seq<Seq<char>>, from: int) -> bool
    decreases pieces.len(),
{
    if pieces.len() == 0 {
        true
    } else {
        exists|i: int|
            from <= i && #[trigger] piece_at(t, pieces[0], i) && pieces_from(
                t,
                pieces.drop_first(),
                i + pieces[0].len(),
            )
    }
}

/// `t LIKE '%' || q || '%'`: the pieces of `q` between its `%` signs occur in `t`
/// in order.
pub open spec fn like_contains(t: Seq<char>, q: Seq<char>) -> bool {
    pieces_from(t, split_char(q, '%'), 0)
}

/// Finding the pieces from a later index finds them from an earlier one too.
pub proof fn lemma_pieces_from_earlier(t: Seq<char>, pieces: Seq<Seq<char>>, a: int, b: int)
    requires
        b <= a,
        pieces_from(t, pieces, a),
    ensures
        pieces_from(t, pieces, b),
{
    if pieces.len() > 0 {
        let i = choose|i: int|
            a <= i && #[trigger] piece_at(t, pieces[0], i) && pieces_from(
                t,
                pieces.drop_first(),
                i + pieces[0].len(),
            );
        assert(b <= i && piece_at(t, pieces[0], i));
    }
}

/// Whether one character matches a pattern character.
fn like_char_matches(t: char, p: char) -> (r: bool)
    ensures
        r == like_char(t, p),
{
    if p == '_' {
        return true;
    }
    let tu = t as u32;
    let pu = p as u32;
    let lt: u32 = if 65 <= tu && tu <= 90 { tu + 32 } else { tu };
    let lp: u32 = if 65 <= pu && pu <= 90 { pu + 32 } else { pu };
    assert(lt == ascii_lower(t) as u32);
    assert(lp == ascii_lower(p) as u32);
    lt == lp
}

/// Whether a piece matches the text at index `i`.
fn piece_matches_at(t: &[char], p: &[char], i: usize) -> (r: bool)
    ensures
        r == piece_at(t@, p@, i as int),
{
    if i > t.len() || p.len() > t.len() - i {
        return false;
    }
    let mut k: usize = 0;
    while k < p.len()
        invariant
            k <= p.len(),
            i + p.len() <= t.len(),
            forall|j: int| 0 <= j < k ==> like_char(#[trigger] t@[i + j], p@[j]),
        decreases p.len() - k,
    {
        if !like_char_matches(t[i + k], p[k]) {
            return false;
        }
        k = k + 1;
    }
    true
}

/// The first index at or after `from` where the piece matches.
fn find_piece(t: &[char], p: &[char], from: usize) -> (r: Option<usize>)
    requires
        from <= t.len(),
    ensures
        match r {
            Some(i) => from <= i && piece_at(t@, p@, i as int) && forall|j: int|
                from <= j < i ==> !#[trigger] piece_at(t@, p@, j),
            None => forall|j: int| from <= j ==> !#[trigger] piece_at(t@, p@, j),
        },
{
    let mut i = from;
    while i < t.len()
        invariant
            from <= i <= t.len(),
            forall|j: int| from <= j < i ==> !#[trigger] piece_at(t@, p@, j),
        decreases t.len() - i,
    {
        if piece_matches_at(t, p, i) {
            return Some(i);
        }
        i = i + 1;
    }
    if piece_matches_at(t, p, i) {
        return Some(i);
    }
    assert forall|j: int| from <= j implies !#[trigger] piece_at(t@, p@, j) by {
        if j > t.len() {
        }
    }
    None
}

/// `t LIKE '%' || q || '%'` on character slices.
pub fn like_contains_chars(t: &[char], q: &[char]) -> (r: bool)
    ensures
        r == like_contains(t@, q@),
{
    let pieces = split_chars(q, '%');
    let ghost ps = char_vecs(pieces@);
    let mut pos: usize = 0;
    let mut k: usize = 0;
    assert(ps.skip(0) =~= ps);
    while k < pieces.len()
        invariant
            k <= pieces.len(),
            pos <= t.len(),
            ps == char_vecs(pieces@),
            ps == split_char(q@, '%'),
            pieces_from(t@, ps, 0) == pieces_from(t@, ps.skip(k as int), pos as int),
        decreases pieces.len() - k,
    {
        let ghost rest = ps.skip(k as int);
        assert(rest[0] == pieces@[k as int]@);
        assert(rest.drop_first() =~= ps.skip(k + 1));
        match find_piece(t, pieces[k].as_slice(), pos) {
            Some(i) => {
                let n = pieces[k].len();
                proof {
                    if pieces_from(t@, rest, pos as int) {
                        let w = choose|w: int|
                            pos <= w && #[trigger] piece_at(t@, rest[0], w) && pieces_from(
                                t@,
                                rest.drop_first(),
                                w + rest[0].len(),
                            );
                        lemma_pieces_from_earlier(t@, rest.drop_first(), w + rest[0].len(), i + n);
                    }
                    if pieces_from(t@, rest.drop_first(), i + n) {
                        assert(pos <= i && piece_at(t@, rest[0], i as int));
                    }
                }
                pos = i + n;
            },
            None => {
                return false;
            },
        }
        k = k + 1;
    }
    proof {
        assert(ps.skip(k as int).len() == 0);
    }
    true
}

// ---------------------------------------------------------------------------
// JSON text of a list of strings
// ---------------------------------------------------------------------------

/// A lower-case hexadecimal digit.
pub open spec fn hex_digit(n: nat) -> char {
    if n < 10 {
        (('0' as u32) + n) as char
    } else {
        (('a' as u32) + n - 10) as char
    }
}

/// One character inside a JSON string: `"` and `\` are escaped, so are the
/// control characters, by their short forms where JSON has one and by `\u00XX`
/// otherwise.
pub open spec fn json_escape(c: char) -> Seq<char> {
    if c == '"' {
        seq!['\\', '"']
    } else if c == '\\' {
        seq!['\\', '\\']
    } else if c == '\u{8}' {
        seq!['\\', 'b']
    } else if c == '\t' {
        seq!['\\', 't']
    } else if c == '\n' {
        seq!['\\', 'n']
    } else if c == '\u{c}' {
        seq!['\\', 'f']
    } else if c == '\r' {
        seq!['\\', 'r']
    } else if (c as u32) < 0x20 {
        seq!['\\', 'u', '0', '0', hex_digit((c as u32 / 16) as nat), hex_digit((c as u32 % 16) as nat)]
    } else {
        seq![c]
    }
}

/// The escaped characters of a JSON string.
pub open spec fn json_chars(s: Seq<char>) -> Seq<char>
    decreases s.len(),
{
    if s.len() == 0 {
        Seq::empty()
    } else {
        json_escape(s[0]) + json_chars(s.drop_first())
    }
}

/// A JSON string.
pub open spec fn json_string(s: Seq<char>) -> Seq<char> {
    seq!['"'] + json_chars(s) + seq!['"']
}

/// A JSON array of strings, with no space between the elements.
pub open spec fn json_list(v: Seq<Seq<char>>) -> Seq<char> {
    seq!['['] + join(v.map_values(|s: Seq<char>| json_string(s)), seq![',']) + seq![']']
}

/// `serde_json::to_string` on a list of strings: an array in compact form, each
/// string quoted, `"` and `\` and the control characters escaped (by `\b`, `\t`,
/// `\n`, `\f`, `\r`, or `\u00` and two lower-case hex digits), every other
/// character as it is. Serialising strings does not fail.
#[verifier::external_body]
fn json_of_strings(v: &Vec<String>) -> (r: String)
    ensures
        r@ == json_list(strs(v@)),
{
    match serde_json::to_string(v) {
        Ok(s) => s,
        Err(_) => String::new(),
    }
}

/// The JSON text of a list of strings, as the characters the store searches.
pub fn json_list_chars(v: &Vec<String>) -> (r: Vec<char>)
    ensures
        r@ == json_list(strs(v@)),
{
    let s = json_of_strings(v);
    chars_of(s.as_str())
}

} // verus!
