//! Terminal presentation state: progress bars, spinners, and plain-text tables.
//! Drawing on the terminal is left to the program; what is drawn is decided here.

use vstd::prelude::*;
use crate::text::{strs, push_char, append_str, chars_of, owned, trim, trim_str, lower_text, to_lower_text, str_eq, lines, lines_of, char_vecs, string_of};

verus! {

// ---------------------------------------------------------------------------
// Progress bar
// ---------------------------------------------------------------------------

/// A progress bar over `total` steps, `current` of which are done.
pub struct ProgressBar {
    total: usize,
    current: usize,
    width: usize,
    label: String,
}

impl ProgressBar {
    /// Steps in all.
    pub closed spec fn total_steps(&self) -> nat {
        self.total as nat
    }

    /// Steps done.
    pub closed spec fn done(&self) -> nat {
        self.current as nat
    }

    /// Cells of the bar.
    pub closed spec fn bar_width(&self) -> nat {
        self.width as nat
    }

    /// The label printed before the bar.
    pub closed spec fn label_text(&self) -> Seq<char> {
        self.label@
    }

    /// A bar of forty cells over `total` steps, none done yet.
    pub fn new(total: usize, label: &str) -> (b: Self)
        ensures
            b.total_steps() == total,
            b.done() == 0,
            b.bar_width() == 40,
            b.label_text() == label@,
    {
        ProgressBar { total, current: 0, width: 40, label: owned(label) }
    }

    /// Sets the number of steps done.
    pub fn set(&mut self, current: usize)
        ensures
            final(self).done() == current,
            final(self).total_steps() == old(self).total_steps(),
            final(self).bar_width() == old(self).bar_width(),
            final(self).label_text() == old(self).label_text(),
    {
        self.current = current;
    }

    /// One more step done.
    pub fn increment(&mut self)
        requires
            old(self).done() < usize::MAX,
        ensures
            final(self).done() == old(self).done() + 1,
            final(self).total_steps() == old(self).total_steps(),
            final(self).bar_width() == old(self).bar_width(),
            final(self).label_text() == old(self).label_text(),
    {
        self.current = self.current + 1;
    }

    /// Steps in all.
    pub fn total(&self) -> (r: usize)
        ensures
            r == self.total_steps(),
    {
        self.total
    }

    /// Steps done.
    pub fn current(&self) -> (r: usize)
        ensures
            r == self.done(),
    {
        self.current
    }

    /// Cells of the bar.
    pub fn width(&self) -> (r: usize)
        ensures
            r == self.bar_width(),
    {
        self.width
    }

    /// The label printed before the bar.
    pub fn label(&self) -> (r: &str)
        ensures
            r@ == self.label_text(),
    {
        self.label.as_str()
    }
}

// ---------------------------------------------------------------------------
// Spinner
// ---------------------------------------------------------------------------

/// The number of frames a spinner cycles through.
pub const SPINNER_FRAMES: usize = 10;

/// A spinner: a message and the frame shown next.
pub struct Spinner {
    current: usize,
    message: String,
}

impl Spinner {
    /// The frame shown at the next tick.
    pub closed spec fn frame(&self) -> nat {
        self.current as nat
    }

    /// The message shown beside the frame.
    pub closed spec fn message_text(&self) -> Seq<char> {
        self.message@
    }

    /// The next frame is always one of the spinner's frames.
    pub closed spec fn wf(&self) -> bool {
        self.current < SPINNER_FRAMES
    }

    /// A spinner at its first frame.
    pub fn new(message: &str) -> (s: Self)
        ensures
            s.wf(),
            s.frame() == 0,
            s.message_text() == message@,
    {
        Spinner { current: 0, message: owned(message) }
    }

    /// Moves on one frame, wrapping after the last; returns the frame to show now.
    pub fn tick(&mut self) -> (shown: usize)
        requires
            old(self).wf(),
        ensures
            final(self).wf(),
            shown == old(self).frame(),
            final(self).frame() == (old(self).frame() + 1) % (SPINNER_FRAMES as nat),
            final(self).message_text() == old(self).message_text(),
    {
        let shown = self.current;
        self.current = (self.current + 1) % SPINNER_FRAMES;
        shown
    }

    /// The message shown beside the frame.
    pub fn message(&self) -> (r: &str)
        ensures
            r@ == self.message_text(),
    {
        self.message.as_str()
    }
}

// ---------------------------------------------------------------------------
// Tables
// ---------------------------------------------------------------------------

/// The UTF-8 length of a text.
pub open spec fn byte_len(s: Seq<char>) -> nat {
    vstd::utf8::encode_utf8(s).len()
}

/// `n` spaces.
pub open spec fn spaces(n: nat) -> Seq<char> {
    Seq::new(n, |_i: int| ' ')
}

/// `n` box-drawing horizontal lines.
pub open spec fn rule(n: nat) -> Seq<char> {
    Seq::new(n, |_i: int| '\u{2500}')
}

/// `cell` padded with spaces to at least `w` characters.
pub open spec fn pad(cell: Seq<char>, w: nat) -> Seq<char> {
    if cell.len() < w {
        cell + spaces((w - cell.len()) as nat)
    } else {
        cell
    }
}

/// The character views of the headers.
pub open spec fn header_views(h: Seq<&str>) -> Seq<Seq<char>> {
    h.map_values(|s: &str| s@)
}

/// The character views of the rows.
pub open spec fn row_views(r: Seq<Vec<String>>) -> Seq<Seq<Seq<char>>> {
    r.map_values(|v: Vec<String>| strs(v@))
}

/// The width of column `i` over the header and the first `k` rows: the largest
/// UTF-8 length among them.
pub open spec fn width_over(headers: Seq<Seq<char>>, rows: Seq<Seq<Seq<char>>>, i: int, k: int) -> nat
    decreases k,
{
    if k <= 0 {
        byte_len(headers[i])
    } else {
        let w = width_over(headers, rows, i, k - 1);
        if i < rows[k - 1].len() && byte_len(rows[k - 1][i]) > w {
            byte_len(rows[k - 1][i])
        } else {
            w
        }
    }
}

/// The width of column `i`.
pub open spec fn column_width(headers: Seq<Seq<char>>, rows: Seq<Seq<Seq<char>>>, i: int) -> nat {
    width_over(headers, rows, i, rows.len() as int)
}

/// The first `n` cells, each padded to its column's width and followed by two spaces.
pub open spec fn cells_line(
    cells: Seq<Seq<char>>,
    headers: Seq<Seq<char>>,
    rows: Seq<Seq<Seq<char>>>,
    n: int,
) -> Seq<char>
    decreases n,
{
    if n <= 0 {
        Seq::empty()
    } else {
        cells_line(cells, headers, rows, n - 1) + pad(cells[n - 1], column_width(headers, rows, n - 1))
            + seq![' ', ' ']
    }
}

/// The rule under the first `n` headers.
pub open spec fn rule_line(headers: Seq<Seq<char>>, rows: Seq<Seq<Seq<char>>>, n: int) -> Seq<char>
    decreases n,
{
    if n <= 0 {
        Seq::empty()
    } else {
        rule_line(headers, rows, n - 1) + rule(column_width(headers, rows, n - 1)) + seq![' ', ' ']
    }
}

/// The number of cells of a row that are shown: those under a header.
pub open spec fn shown_cells(row: Seq<Seq<char>>, headers: Seq<Seq<char>>) -> int {
    if row.len() < headers.len() {
        row.len() as int
    } else {
        headers.len() as int
    }
}

/// The lines of the first `k` rows.
pub open spec fn rows_text(headers: Seq<Seq<char>>, rows: Seq<Seq<Seq<char>>>, k: int) -> Seq<char>
    decreases k,
{
    if k <= 0 {
        Seq::empty()
    } else {
        rows_text(headers, rows, k - 1) + cells_line(
            rows[k - 1],
            headers,
            rows,
            shown_cells(rows[k - 1], headers),
        ) + seq!['\n']
    }
}

/// The table: a header line, a rule, and one line per row; "No data." without rows.
pub open spec fn table_text(headers: Seq<Seq<char>>, rows: Seq<Seq<Seq<char>>>) -> Seq<char> {
    if rows.len() == 0 {
        "No data."@
    } else {
        cells_line(headers, headers, rows, headers.len() as int) + seq!['\n'] + rule_line(
            headers,
            rows,
            headers.len() as int,
        ) + seq!['\n'] + rows_text(headers, rows, rows.len() as int)
    }
}

/// Appends `cell` padded to `w` characters, then two spaces.
fn push_cell(out: &mut String, cell: &str, w: usize)
    ensures
        final(out)@ == old(out)@ + pad(cell@, w as nat) + seq![' ', ' '],
{
    append_str(out, cell);
    let n = chars_of(cell).len();
    if n < w {
        let mut j: usize = 0;
        while j < w - n
            invariant
                n < w,
                j <= w - n,
                out@ == old(out)@ + cell@ + spaces(j as nat),
            decreases w - n - j,
        {
            push_char(out, ' ');
            assert(spaces(j as nat).push(' ') =~= spaces((j + 1) as nat));
            assert(old(out)@ + cell@ + spaces(j as nat) + seq![' '] =~= old(out)@ + cell@ + spaces(
                (j + 1) as nat,
            ));
            j = j + 1;
        }
    } else {
        assert(old(out)@ + cell@ =~= old(out)@ + cell@);
    }
    push_char(out, ' ');
    push_char(out, ' ');
    assert(old(out)@ + pad(cell@, w as nat) + seq![' ', ' '] =~= (old(out)@ + pad(cell@, w as nat)).push(
        ' ',
    ).push(' '));
}

/// Appends `w` rule characters, then two spaces.
fn push_rule(out: &mut String, w: usize)
    ensures
        final(out)@ == old(out)@ + rule(w as nat) + seq![' ', ' '],
{
    let mut j: usize = 0;
    while j < w
        invariant
            j <= w,
            out@ == old(out)@ + rule(j as nat),
        decreases w - j,
    {
        push_char(out, '\u{2500}');
        assert(old(out)@ + rule(j as nat) + seq!['\u{2500}'] =~= old(out)@ + rule((j + 1) as nat));
        j = j + 1;
    }
    push_char(out, ' ');
    push_char(out, ' ');
    assert(old(out)@ + rule(w as nat) + seq![' ', ' '] =~= (old(out)@ + rule(w as nat)).push(' ').push(
        ' ',
    ));
}

/// The width of every column.
fn column_widths(headers: &[&str], rows: &[Vec<String>]) -> (ws: Vec<usize>)
    ensures
        ws.len() == headers.len(),
        forall|i: int|
            0 <= i < headers.len() ==> ws[i] == column_width(
                header_views(headers@),
                row_views(rows@),
                i,
            ),
{
    let ghost hv = header_views(headers@);
    let ghost rv = row_views(rows@);
    let mut ws: Vec<usize> = Vec::new();
    let mut i: usize = 0;
    while i < headers.len()
        invariant
            i <= headers.len(),
            hv == header_views(headers@),
            ws.len() == i,
            forall|j: int| 0 <= j < i ==> ws[j] == width_over(hv, rv, j, 0),
        decreases headers.len() - i,
    {
        ws.push(headers[i].as_bytes().len());
        i = i + 1;
    }
    let mut k: usize = 0;
    while k < rows.len()
        invariant
            k <= rows.len(),
            hv == header_views(headers@),
            rv == row_views(rows@),
            ws.len() == headers.len(),
            forall|j: int| 0 <= j < headers.len() ==> ws[j] == width_over(hv, rv, j, k as int),
        decreases rows.len() - k,
    {
        let row = &rows[k];
        assert(rv[k as int] == strs(row@));
        let mut c: usize = 0;
        while c < headers.len()
            invariant
                k < rows.len(),
                c <= headers.len(),
                row == &rows@[k as int],
                hv == header_views(headers@),
                rv == row_views(rows@),
                rv[k as int] == strs(row@),
                ws.len() == headers.len(),
                forall|j: int| 0 <= j < c ==> ws[j] == width_over(hv, rv, j, k + 1),
                forall|j: int| c <= j < headers.len() ==> ws[j] == width_over(hv, rv, j, k as int),
            decreases headers.len() - c,
        {
            if c < row.len() {
                let b = row[c].as_str().as_bytes().len();
                if b > ws[c] {
                    ws.set(c, b);
                }
            }
            assert(ws[c as int] == width_over(hv, rv, c as int, k + 1));
            c = c + 1;
        }
        k = k + 1;
    }
    ws
}

/// The rows as a left-aligned text table: each column as wide as its longest
/// entry's UTF-8 length, two spaces after every cell, a rule of `─` under the
/// headers, and cells beyond the last header left out. Without rows: "No data.".
pub fn format_table(headers: &[&str], rows: &[Vec<String>]) -> (out: String)
    ensures
        out@ == table_text(header_views(headers@), row_views(rows@)),
{
    let ghost hv = header_views(headers@);
    let ghost rv = row_views(rows@);
    if rows.len() == 0 {
        return owned("No data.");
    }
    let ws = column_widths(headers, rows);
    let mut out = String::new();
    let mut i: usize = 0;
    while i < headers.len()
        invariant
            i <= headers.len(),
            hv == header_views(headers@),
            rv == row_views(rows@),
            ws.len() == headers.len(),
            forall|j: int| 0 <= j < headers.len() ==> ws[j] == column_width(hv, rv, j),
            out@ == cells_line(hv, hv, rv, i as int),
        decreases headers.len() - i,
    {
        push_cell(&mut out, headers[i], ws[i]);
        i = i + 1;
    }
    push_char(&mut out, '\n');
    let ghost head = out@;
    let mut i: usize = 0;
    while i < headers.len()
        invariant
            i <= headers.len(),
            hv == header_views(headers@),
            rv == row_views(rows@),
            ws.len() == headers.len(),
            forall|j: int| 0 <= j < headers.len() ==> ws[j] == column_width(hv, rv, j),
            out@ == head + rule_line(hv, rv, i as int),
        decreases headers.len() - i,
    {
        push_rule(&mut out, ws[i]);
        assert(head + rule_line(hv, rv, i as int) + rule(ws[i as int] as nat) + seq![' ', ' '] =~= head
            + rule_line(hv, rv, i + 1));
        i = i + 1;
    }
    push_char(&mut out, '\n');
    let ghost top = out@;
    let mut k: usize = 0;
    while k < rows.len()
        invariant
            k <= rows.len(),
            hv == header_views(headers@),
            rv == row_views(rows@),
            ws.len() == headers.len(),
            forall|j: int| 0 <= j < headers.len() ==> ws[j] == column_width(hv, rv, j),
            out@ == top + rows_text(hv, rv, k as int),
        decreases rows.len() - k,
    {
        let row = &rows[k];
        assert(rv[k as int] == strs(row@));
        let ghost before = out@;
        let n = if row.len() < headers.len() { row.len() } else { headers.len() };
        let mut c: usize = 0;
        while c < n
            invariant
                k < rows.len(),
                c <= n,
                n <= row.len(),
                n <= headers.len(),
                row == &rows@[k as int],
                rv[k as int] == strs(row@),
                ws.len() == headers.len(),
                forall|j: int| 0 <= j < headers.len() ==> ws[j] == column_width(hv, rv, j),
                out@ == before + cells_line(rv[k as int], hv, rv, c as int),
            decreases n - c,
        {
            push_cell(&mut out, row[c].as_str(), ws[c]);
            assert(before + cells_line(rv[k as int], hv, rv, c as int) + pad(
                row@[c as int]@,
                ws[c as int] as nat,
            ) + seq![' ', ' '] =~= before + cells_line(rv[k as int], hv, rv, c + 1));
            c = c + 1;
        }
        push_char(&mut out, '\n');
        assert(n == shown_cells(rv[k as int], hv));
        assert(top + rows_text(hv, rv, k + 1) =~= before + cells_line(rv[k as int], hv, rv, n as int)
            + seq!['\n']);
        k = k + 1;
    }
    assert(table_text(hv, rv) =~= cells_line(hv, hv, rv, headers.len() as int) + seq!['\n']
        + rule_line(hv, rv, headers.len() as int) + seq!['\n'] + rows_text(hv, rv, rows.len() as int));
    out
}

// ---------------------------------------------------------------------------
// Answers to prompts
// ---------------------------------------------------------------------------

/// An ASCII digit.
pub open spec fn is_digit(c: char) -> bool {
    '0' <= c && c <= '9'
}

/// The number that a run of decimal digits writes.
pub open spec fn digits_value(ds: Seq<char>) -> nat
    decreases ds.len(),
{
    if ds.len() == 0 {
        0
    } else {
        digits_value(ds.drop_last()) * 10 + ((ds.last() as u32) - ('0' as u32)) as nat
    }
}

/// A number's text without its leading `+`, if any.
pub open spec fn digits_part(s: Seq<char>) -> Seq<char> {
    if s.len() > 0 && s[0] == '+' {
        s.drop_first()
    } else {
        s
    }
}

/// `usize::from_str`: an optional `+` and at least one decimal digit, of a value
/// that fits.
pub open spec fn usize_text(s: Seq<char>) -> Option<nat> {
    let ds = digits_part(s);
    if ds.len() > 0 && (forall|i: int| 0 <= i < ds.len() ==> is_digit(#[trigger] ds[i])) && digits_value(ds)
        <= usize::MAX {
        Some(digits_value(ds))
    } else {
        None
    }
}

/// A longer run of digits writes at least as large a number.
proof fn lemma_digits_grow(ds: Seq<char>, i: int)
    requires
        0 <= i <= ds.len(),
        forall|k: int| 0 <= k < ds.len() ==> is_digit(#[trigger] ds[k]),
    ensures
        digits_value(ds.take(i)) <= digits_value(ds),
    decreases ds.len() - i,
{
    if i < ds.len() {
        lemma_digits_grow(ds, i + 1);
        assert(ds.take(i + 1).drop_last() =~= ds.take(i));
    } else {
        assert(ds.take(i) =~= ds);
    }
}

/// Parses a decimal number as `usize::from_str` does.
pub fn parse_usize(s: &str) -> (r: Option<usize>)
    ensures
        match r {
            Some(n) => usize_text(s@) == Some(n as nat),
            None => usize_text(s@) is None,
        },
{
    let cs = chars_of(s);
    let start: usize = if cs.len() > 0 && cs[0] == '+' { 1 } else { 0 };
    let ghost ds = digits_part(s@);
    assert(ds =~= cs@.skip(start as int));
    if start >= cs.len() {
        return None;
    }
    let mut v: usize = 0;
    let mut i: usize = start;
    assert(ds.take(0) =~= Seq::<char>::empty());
    while i < cs.len()
        invariant
            start <= i <= cs.len(),
            cs@ == s@,
            ds =~= cs@.skip(start as int),
            ds == digits_part(s@),
            forall|k: int| 0 <= k < i - start ==> is_digit(#[trigger] ds[k]),
            v == digits_value(ds.take(i - start)),
        decreases cs.len() - i,
    {
        let c = cs[i];
        assert(ds[i - start] == c);
        if !('0' <= c && c <= '9') {
            proof {
                assert(!is_digit(ds[i - start]));
                assert(!(forall|k: int| 0 <= k < ds.len() ==> is_digit(#[trigger] ds[k])));
            }
            return None;
        }
        let d = (c as u32 - '0' as u32) as usize;
        assert(ds.take(i - start + 1).drop_last() =~= ds.take(i - start));
        assert(ds.take(i - start + 1).last() == c);
        let next = match v.checked_mul(10) {
            Some(t) => t.checked_add(d),
            None => None,
        };
        match next {
            Some(n) => {
                v = n;
            },
            None => {
                proof {
                    assert(v * 10 + d > usize::MAX);
                    assert(digits_value(ds.take(i - start + 1)) == v * 10 + d);
                    if forall|k: int| 0 <= k < ds.len() ==> is_digit(#[trigger] ds[k]) {
                        lemma_digits_grow(ds, i - start + 1);
                    }
                }
                return None;
            },
        }
        i = i + 1;
    }
    assert(ds.take(i - start) =~= ds);
    Some(v)
}

/// The option picked by an answer to a numbered menu of `n` options: the answer,
/// trimmed, is a number from 1 to `n`; 0 or anything else picks none.
pub open spec fn choice_for(input: Seq<char>, n: nat) -> Option<nat> {
    match usize_text(trim(input)) {
        Some(k) => if 1 <= k && k <= n {
            Some((k - 1) as nat)
        } else {
            None
        },
        None => None,
    }
}

/// The option picked (counted from zero) by an answer to a numbered menu.
pub fn select_choice(input: &str, count: usize) -> (r: Option<usize>)
    ensures
        match r {
            Some(i) => choice_for(input@, count as nat) == Some(i as nat),
            None => choice_for(input@, count as nat) is None,
        },
{
    let t = trim_str(input);
    match parse_usize(t.as_str()) {
        Some(k) => if k >= 1 && k <= count {
            Some(k - 1)
        } else {
            None
        },
        None => None,
    }
}

/// The answer to a yes/no question: trimmed and lower-cased, empty means the
/// default, `y` or `yes` means yes, anything else no.
pub open spec fn confirmed(input: Seq<char>, default: bool) -> bool {
    let l = lower_text(trim(input));
    if l.len() == 0 {
        default
    } else {
        l == "y"@ || l == "yes"@
    }
}

/// The answer to a yes/no question.
pub fn confirm_answer(input: &str, default: bool) -> (r: bool)
    ensures
        r == confirmed(input@, default),
{
    let t = trim_str(input);
    let l = to_lower_text(t.as_str());
    if l.as_str().is_empty() {
        default
    } else {
        str_eq(l.as_str(), "y") || str_eq(l.as_str(), "yes")
    }
}

/// The answer to a question with a default: the trimmed input, or the default when
/// it is empty.
pub fn input_answer(input: &str, default: &str) -> (r: String)
    ensures
        r@ == if trim(input@).len() == 0 { default@ } else { trim(input@) },
{
    let t = trim_str(input);
    if t.as_str().is_empty() {
        owned(default)
    } else {
        t
    }
}

// ---------------------------------------------------------------------------
// Boxes and trees
// ---------------------------------------------------------------------------

/// A line inside a box: the text padded to 56 characters between `│ ` and ` │`.
pub open spec fn box_line(t: Seq<char>) -> Seq<char> {
    "\u{2502} "@ + pad(t, 56) + " \u{2502}\n"@
}

/// The box lines of the first `k` lines.
pub open spec fn box_lines(ls: Seq<Seq<char>>, k: int) -> Seq<char>
    decreases k,
{
    if k <= 0 || k > ls.len() {
        Seq::empty()
    } else {
        box_lines(ls, k - 1) + box_line(ls[k - 1])
    }
}

/// A box sixty characters wide: the title, a rule, then each line of the content.
pub open spec fn box_text(title: Seq<char>, content: Seq<char>) -> Seq<char> {
    "\u{250c}"@ + rule(58) + "\u{2510}\n"@ + box_line(title) + "\u{251c}"@ + rule(58) + "\u{2524}\n"@
        + box_lines(lines(content), lines(content).len() as int) + "\u{2514}"@ + rule(58) + "\u{2518}\n"@
}

/// Appends `n` rule characters.
fn push_rule_only(out: &mut String, n: usize)
    ensures
        final(out)@ == old(out)@ + rule(n as nat),
{
    let mut j: usize = 0;
    while j < n
        invariant
            j <= n,
            out@ == old(out)@ + rule(j as nat),
        decreases n - j,
    {
        push_char(out, '\u{2500}');
        assert(old(out)@ + rule(j as nat) + seq!['\u{2500}'] =~= old(out)@ + rule((j + 1) as nat));
        j = j + 1;
    }
}

/// Appends a box line.
fn push_box_line(out: &mut String, t: &str)
    ensures
        final(out)@ == old(out)@ + box_line(t@),
{
    append_str(out, "\u{2502} ");
    let n = chars_of(t).len();
    append_str(out, t);
    if n < 56 {
        let mut j: usize = 0;
        while j < 56 - n
            invariant
                n < 56,
                j <= 56 - n,
                out@ == old(out)@ + "\u{2502} "@ + t@ + spaces(j as nat),
            decreases 56 - n - j,
        {
            push_char(out, ' ');
            assert(old(out)@ + "\u{2502} "@ + t@ + spaces(j as nat) + seq![' '] =~= old(out)@ + "\u{2502} "@ + t@
                + spaces((j + 1) as nat));
            j = j + 1;
        }
    } else {
        assert(old(out)@ + "\u{2502} "@ + t@ =~= old(out)@ + "\u{2502} "@ + pad(t@, 56));
    }
    append_str(out, " \u{2502}\n");
    assert(out@ =~= old(out)@ + box_line(t@));
}

/// A titled box around some text, sixty characters wide.
pub fn box_text_of(title: &str, content: &str) -> (r: String)
    ensures
        r@ == box_text(title@, content@),
{
    let mut out = owned("\u{250c}");
    push_rule_only(&mut out, 58);
    append_str(&mut out, "\u{2510}\n");
    push_box_line(&mut out, title);
    append_str(&mut out, "\u{251c}");
    push_rule_only(&mut out, 58);
    append_str(&mut out, "\u{2524}\n");
    let ls = lines_of(chars_of(content).as_slice());
    let ghost lv = char_vecs(ls@);
    let ghost head = out@;
    let mut i: usize = 0;
    while i < ls.len()
        invariant
            i <= ls.len(),
            lv == char_vecs(ls@),
            lv == lines(content@),
            out@ == head + box_lines(lv, i as int),
        decreases ls.len() - i,
    {
        let l = string_of(ls[i].as_slice());
        push_box_line(&mut out, l.as_str());
        i = i + 1;
    }
    append_str(&mut out, "\u{2514}");
    push_rule_only(&mut out, 58);
    append_str(&mut out, "\u{2518}\n");
    assert(out@ =~= box_text(title@, content@));
    out
}

/// The lines of the first `k` children under a parent drawn with `prefix`.
pub open spec fn child_lines(prefix: Seq<char>, cs: Seq<Seq<char>>, k: int) -> Seq<char>
    decreases k,
{
    if k <= 0 || k > cs.len() {
        Seq::empty()
    } else {
        child_lines(prefix, cs, k - 1) + prefix + (if k == cs.len() {
            "\u{2514}\u{2500}\u{2500} "@
        } else {
            "\u{251c}\u{2500}\u{2500} "@
        }) + cs[k - 1] + "\n"@
    }
}

/// The plain value of tree items.
pub open spec fn tree_view(items: Seq<(String, Vec<String>)>) -> Seq<(Seq<char>, Seq<Seq<char>>)> {
    items.map_values(|p: (String, Vec<String>)| (p.0@, strs(p.1@)))
}

/// The lines of the first `k` parents of a tree, each with its children.
pub open spec fn tree_lines(items: Seq<(Seq<char>, Seq<Seq<char>>)>, k: int) -> Seq<char>
    decreases k,
{
    if k <= 0 || k > items.len() {
        Seq::empty()
    } else {
        let last = k == items.len();
        tree_lines(items, k - 1) + (if last { "\u{2514}\u{2500}\u{2500} "@ } else { "\u{251c}\u{2500}\u{2500} "@ })
            + items[k - 1].0 + "\n"@ + child_lines(
            if last { "    "@ } else { "\u{2502}   "@ },
            items[k - 1].1,
            items[k - 1].1.len() as int,
        )
    }
}

/// A two-level tree drawn with box characters: each parent, then its children.
pub fn tree_text(items: &[(String, Vec<String>)]) -> (r: String)
    ensures
        r@ == tree_lines(tree_view(items@), items@.len() as int),
{
    let ghost tv = tree_view(items@);
    let mut out = String::new();
    let mut i: usize = 0;
    assert(out@ =~= tree_lines(tv, 0));
    while i < items.len()
        invariant
            i <= items.len(),
            tv == tree_view(items@),
            out@ == tree_lines(tv, i as int),
        decreases items.len() - i,
    {
        let last = i + 1 == items.len();
        let ghost before = out@;
        append_str(&mut out, if last { "\u{2514}\u{2500}\u{2500} " } else { "\u{251c}\u{2500}\u{2500} " });
        append_str(&mut out, items[i].0.as_str());
        append_str(&mut out, "\n");
        let prefix = if last { "    " } else { "\u{2502}   " };
        let cs = &items[i].1;
        let ghost cv = strs(cs@);
        let ghost mid = out@;
        let mut j: usize = 0;
        while j < cs.len()
            invariant
                j <= cs.len(),
                cv == strs(cs@),
                out@ == mid + child_lines(prefix@, cv, j as int),
            decreases cs.len() - j,
        {
            let ghost b = out@;
            append_str(&mut out, prefix);
            append_str(&mut out, if j + 1 == cs.len() { "\u{2514}\u{2500}\u{2500} " } else { "\u{251c}\u{2500}\u{2500} " });
            append_str(&mut out, cs[j].as_str());
            append_str(&mut out, "\n");
            assert(out@ =~= mid + child_lines(prefix@, cv, j + 1));
            j = j + 1;
        }
        assert(tv[i as int] == (items@[i as int].0@, cv));
        assert(out@ =~= tree_lines(tv, i + 1));
        i = i + 1;
    }
    out
}

} // verus!
