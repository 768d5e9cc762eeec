//! The interactive browser: which memories a typed query shows, and how each key
//! press moves the browser from one state to the next.

use vstd::prelude::*;
use crate::text::{strs, has_sub, lower_text, to_lower_text, str_contains, chars_of, slice_vec, string_of, push_char, append_str, push_decimal};
use crate::types::{Memory, MemoryView, memory_views, kind_name};

verus! {

/// A memory is shown for a lower-cased query when its lower-cased key, content or a
/// lower-cased tag contains it, or its kind's name does.
pub open spec fn shown_for(m: MemoryView, q: Seq<char>) -> bool {
    ||| has_sub(lower_text(m.key), q)
    ||| has_sub(lower_text(m.content), q)
    ||| exists|i: int| 0 <= i < m.tags.len() && has_sub(lower_text(#[trigger] m.tags[i]), q)
    ||| has_sub(kind_name(m.kind), q)
}

/// The places among the first `n` memories that are shown for `q`.
pub open spec fn shown_places(ms: Seq<MemoryView>, q: Seq<char>, n: int) -> Seq<usize>
    decreases n,
{
    if n <= 0 || n > ms.len() {
        Seq::empty()
    } else {
        let prev = shown_places(ms, q, n - 1);
        if shown_for(ms[n - 1], q) {
            prev.push((n - 1) as usize)
        } else {
            prev
        }
    }
}

/// Whether some tag contains the query once lower-cased.
fn tag_shown(tags: &Vec<String>, q: &str) -> (r: bool)
    ensures
        r == exists|i: int| 0 <= i < tags@.len() && has_sub(lower_text(#[trigger] strs(tags@)[i]), q@),
{
    let mut i: usize = 0;
    while i < tags.len()
        invariant
            i <= tags.len(),
            forall|j: int| 0 <= j < i ==> !has_sub(lower_text(#[trigger] strs(tags@)[j]), q@),
        decreases tags.len() - i,
    {
        let l = to_lower_text(tags[i].as_str());
        if str_contains(l.as_str(), q) {
            assert(has_sub(lower_text(strs(tags@)[i as int]), q@));
            return true;
        }
        i = i + 1;
    }
    false
}

/// The places of the memories shown for a typed query: all of them when it is
/// empty, else those shown for the lower-cased query, in order.
pub fn filtered_indices(memories: &[Memory], search_input: &str) -> (r: Vec<usize>)
    ensures
        search_input@.len() == 0 ==> r@ == Seq::new(memories@.len(), |i: int| i as usize),
        search_input@.len() > 0 ==> r@ == shown_places(memory_views(memories@), lower_text(search_input@), memories@.len() as int),
{
    let ghost ms = memory_views(memories@);
    let mut r: Vec<usize> = Vec::new();
    if search_input.is_empty() {
        let mut i: usize = 0;
        while i < memories.len()
            invariant
                i <= memories.len(),
                r@ == Seq::new(i as nat, |k: int| k as usize),
            decreases memories.len() - i,
        {
            r.push(i);
            assert(r@ =~= Seq::new((i + 1) as nat, |k: int| k as usize));
            i = i + 1;
        }
        return r;
    }
    let q = to_lower_text(search_input);
    let ghost qv = lower_text(search_input@);
    let mut i: usize = 0;
    while i < memories.len()
        invariant
            i <= memories.len(),
            q@ == qv,
            ms == memory_views(memories@),
            r@ == shown_places(ms, qv, i as int),
        decreases memories.len() - i,
    {
        let m = &memories[i];
        assert(ms[i as int] == m@);
        assert(ms[i as int].tags == strs(m.tags@));
        let hit = str_contains(to_lower_text(m.key.as_str()).as_str(), q.as_str())
            || str_contains(to_lower_text(m.content.as_str()).as_str(), q.as_str())
            || tag_shown(&m.tags, q.as_str())
            || str_contains(m.kind.to_string().as_str(), q.as_str());
        assert(hit == shown_for(ms[i as int], qv));
        if hit {
            r.push(i);
        }
        i = i + 1;
    }
    r
}

/// The places a browser shows for what was typed: every memory when nothing was,
/// else those shown for the lower-cased text.
pub open spec fn shown_list(ms: Seq<MemoryView>, input: Seq<char>) -> Seq<usize> {
    if input.len() == 0 {
        Seq::new(ms.len(), |i: int| i as usize)
    } else {
        shown_places(ms, lower_text(input), ms.len() as int)
    }
}

/// A key press, as the browser tells keys apart.
pub enum BrowseKey {
    Esc,
    Enter,
    Backspace,
    Up,
    Down,
    Char(char),
    Other,
}

/// The state of the interactive browser: the memories it shows (most recent first),
/// what is typed in the search line and whether it is being typed, the places of the
/// memories that pass the filter, which line of the list is selected, and how far the
/// detail panel is scrolled.
pub struct BrowseState {
    pub memories: Vec<Memory>,
    pub search_input: String,
    pub search_mode: bool,
    pub filtered_indices: Vec<usize>,
    pub selected: Option<usize>,
    pub detail_scroll: u16,
}

/// The plain value of a browser state.
pub struct BrowseView {
    pub memories: Seq<MemoryView>,
    pub search_input: Seq<char>,
    pub search_mode: bool,
    pub filtered: Seq<usize>,
    pub selected: Option<usize>,
    pub detail_scroll: u16,
}

impl View for BrowseState {
    type V = BrowseView;

    open spec fn view(&self) -> BrowseView {
        BrowseView {
            memories: memory_views(self.memories@),
            search_input: self.search_input@,
            search_mode: self.search_mode,
            filtered: self.filtered_indices@,
            selected: self.selected,
            detail_scroll: self.detail_scroll,
        }
    }
}

/// The state after the filter is applied again to what is typed: the list starts
/// over at its first line, or has no selection when it is empty.
pub open spec fn refiltered(s: BrowseView) -> BrowseView {
    let f = shown_list(s.memories, s.search_input);
    BrowseView { filtered: f, selected: if f.len() == 0 { None } else { Some(0usize) }, ..s }
}

/// The selection after moving one line down: the next line when there is one, else
/// the same; the first line when nothing was selected.
pub open spec fn moved_down(sel: Option<usize>, n: nat) -> Option<usize> {
    match sel {
        Some(i) => if i + 1 < n { Some((i + 1) as usize) } else { Some(i) },
        None => Some(0usize),
    }
}

/// The selection after moving one line up: the line before, staying on the first.
pub open spec fn moved_up(sel: Option<usize>) -> Option<usize> {
    match sel {
        Some(i) => if i > 0 { Some((i - 1) as usize) } else { Some(0usize) },
        None => Some(0usize),
    }
}

/// The scroll of the detail panel moved by three lines, held within `u16`.
pub open spec fn scrolled(s: u16, down: bool) -> u16 {
    if down {
        if s + 3 > u16::MAX { u16::MAX } else { (s + 3) as u16 }
    } else {
        if s < 3 { 0u16 } else { (s - 3) as u16 }
    }
}

/// The next state of the browser for one key press, and whether the browser closes.
/// While a search is typed, Esc clears and leaves it, Enter leaves it, Backspace
/// takes the last character off and a character is added, each refiltering. Else
/// `q` or Esc close; `/` starts a new search; `j`/Down and `k`/Up move the selection;
/// `g` and `G` go to the first and last line of a list that is not empty; `d` and `u`
/// scroll the detail panel.
pub open spec fn browse_next(s: BrowseView, key: BrowseKey) -> (BrowseView, bool) {
    if s.search_mode {
        match key {
            BrowseKey::Esc => (refiltered(BrowseView { search_mode: false, search_input: Seq::empty(), ..s }), false),
            BrowseKey::Enter => (BrowseView { search_mode: false, ..s }, false),
            BrowseKey::Backspace => (refiltered(BrowseView {
                search_input: if s.search_input.len() == 0 { s.search_input } else { s.search_input.drop_last() },
                ..s
            }), false),
            BrowseKey::Char(c) => (refiltered(BrowseView { search_input: s.search_input.push(c), ..s }), false),
            _ => (s, false),
        }
    } else {
        match key {
            BrowseKey::Esc => (s, true),
            BrowseKey::Char(c) => if c == 'q' {
                (s, true)
            } else if c == '/' {
                (BrowseView { search_mode: true, search_input: Seq::empty(), ..s }, false)
            } else if c == 'j' {
                (BrowseView { selected: moved_down(s.selected, s.filtered.len()), detail_scroll: 0, ..s }, false)
            } else if c == 'k' {
                (BrowseView { selected: moved_up(s.selected), detail_scroll: 0, ..s }, false)
            } else if c == 'g' {
                (if s.filtered.len() > 0 { BrowseView { selected: Some(0usize), ..s } } else { s }, false)
            } else if c == 'G' {
                (if s.filtered.len() > 0 { BrowseView { selected: Some((s.filtered.len() - 1) as usize), ..s } } else { s }, false)
            } else if c == 'd' {
                (BrowseView { detail_scroll: scrolled(s.detail_scroll, true), ..s }, false)
            } else if c == 'u' {
                (BrowseView { detail_scroll: scrolled(s.detail_scroll, false), ..s }, false)
            } else {
                (s, false)
            },
            BrowseKey::Down => (BrowseView { selected: moved_down(s.selected, s.filtered.len()), detail_scroll: 0, ..s }, false),
            BrowseKey::Up => (BrowseView { selected: moved_up(s.selected), detail_scroll: 0, ..s }, false),
            _ => (s, false),
        }
    }
}

/// The place in `memories` of the memory on the selected line, if any.
pub open spec fn selected_place(s: BrowseView) -> Option<usize> {
    match s.selected {
        Some(i) => if i < s.filtered.len() && s.filtered[i as int] < s.memories.len() {
            Some(s.filtered[i as int])
        } else {
            None
        },
        None => None,
    }
}

impl BrowseState {
    /// A browser over `memories`: nothing typed, every memory listed, the first one
    /// selected when there is one.
    pub fn new(memories: Vec<Memory>) -> (r: Self)
        ensures
            r@ == (BrowseView {
                memories: memory_views(memories@),
                search_input: Seq::empty(),
                search_mode: false,
                filtered: Seq::new(memories@.len(), |i: int| i as usize),
                selected: if memories@.len() == 0 { None } else { Some(0usize) },
                detail_scroll: 0,
            }),
    {
        let filtered_indices = filtered_indices(memories.as_slice(), "");
        proof {
            reveal_strlit("");
        }
        let selected = if memories.len() == 0 { None } else { Some(0usize) };
        let r = BrowseState {
            memories,
            search_input: String::new(),
            search_mode: false,
            filtered_indices,
            selected,
            detail_scroll: 0,
        };
        assert(r.search_input@ =~= Seq::<char>::empty());
        r
    }

    /// Applies the filter again to what is typed.
    pub fn apply_filter(&mut self)
        ensures
            final(self)@ == refiltered(old(self)@),
    {
        let f = filtered_indices(self.memories.as_slice(), self.search_input.as_str());
        self.selected = if f.len() == 0 { None } else { Some(0usize) };
        self.filtered_indices = f;
    }

    /// The place in `memories` of the memory on the selected line, if any.
    pub fn selected_memory(&self) -> (r: Option<usize>)
        ensures
            r == selected_place(self@),
    {
        match self.selected {
            Some(i) => {
                if i < self.filtered_indices.len() && self.filtered_indices[i] < self.memories.len() {
                    Some(self.filtered_indices[i])
                } else {
                    None
                }
            },
            None => None,
        }
    }

    /// Moves the browser by one key press; returns whether it closes.
    pub fn step(&mut self, key: BrowseKey) -> (quit: bool)
        ensures
            (final(self)@, quit) == browse_next(old(self)@, key),
    {
        if self.search_mode {
            match key {
                BrowseKey::Esc => {
                    self.search_mode = false;
                    self.search_input = String::new();
                    assert(self.search_input@ =~= Seq::<char>::empty());
                    self.apply_filter();
                },
                BrowseKey::Enter => {
                    self.search_mode = false;
                },
                BrowseKey::Backspace => {
                    let cs = chars_of(self.search_input.as_str());
                    if cs.len() > 0 {
                        let kept = slice_vec(cs.as_slice(), 0, cs.len() - 1);
                        self.search_input = string_of(kept.as_slice());
                        assert(self.search_input@ =~= old(self)@.search_input.drop_last());
                    }
                    self.apply_filter();
                },
                BrowseKey::Char(c) => {
                    push_char(&mut self.search_input, c);
                    self.apply_filter();
                },
                _ => {},
            }
            false
        } else {
            match key {
                BrowseKey::Esc => true,
                BrowseKey::Char(c) => {
                    if c == 'q' {
                        true
                    } else if c == '/' {
                        self.search_mode = true;
                        self.search_input = String::new();
                        assert(self.search_input@ =~= Seq::<char>::empty());
                        false
                    } else if c == 'j' {
                        self.move_down();
                        false
                    } else if c == 'k' {
                        self.move_up();
                        false
                    } else if c == 'g' {
                        if self.filtered_indices.len() > 0 {
                            self.selected = Some(0);
                        }
                        false
                    } else if c == 'G' {
                        if self.filtered_indices.len() > 0 {
                            self.selected = Some(self.filtered_indices.len() - 1);
                        }
                        false
                    } else if c == 'd' {
                        self.detail_scroll = if self.detail_scroll > u16::MAX - 3 { u16::MAX } else { self.detail_scroll + 3 };
                        false
                    } else if c == 'u' {
                        self.detail_scroll = if self.detail_scroll < 3 { 0 } else { self.detail_scroll - 3 };
                        false
                    } else {
                        false
                    }
                },
                BrowseKey::Down => {
                    self.move_down();
                    false
                },
                BrowseKey::Up => {
                    self.move_up();
                    false
                },
                _ => false,
            }
        }
    }

    fn move_down(&mut self)
        ensures
            final(self)@ == (BrowseView {
                selected: moved_down(old(self)@.selected, old(self)@.filtered.len()),
                detail_scroll: 0,
                ..old(self)@
            }),
    {
        self.selected = match self.selected {
            Some(i) => if self.filtered_indices.len() > 0 && i < self.filtered_indices.len() - 1 { Some(i + 1) } else { Some(i) },
            None => Some(0),
        };
        self.detail_scroll = 0;
    }

    fn move_up(&mut self)
        ensures
            final(self)@ == (BrowseView { selected: moved_up(old(self)@.selected), detail_scroll: 0, ..old(self)@ }),
    {
        self.selected = match self.selected {
            Some(i) => if i > 0 { Some(i - 1) } else { Some(0) },
            None => Some(0),
        };
        self.detail_scroll = 0;
    }

    /// The title of the list: what is being typed, or how many memories pass the
    /// filter out of how many.
    pub fn search_hint(&self) -> (r: String)
        ensures
            r@ == hint_text(self@),
    {
        let mut r = String::new();
        if self.search_mode {
            append_str(&mut r, " Search: ");
            append_str(&mut r, self.search_input.as_str());
            append_str(&mut r, "_");
        } else {
            append_str(&mut r, " ");
            push_decimal(&mut r, self.filtered_indices.len());
            append_str(&mut r, "/");
            push_decimal(&mut r, self.memories.len());
            append_str(&mut r, " memories (press / to search)");
        }
        r
    }
}

/// The title text of the browser's list.
pub open spec fn hint_text(s: BrowseView) -> Seq<char> {
    if s.search_mode {
        " Search: "@ + s.search_input + "_"@
    } else {
        " "@ + crate::text::decimal(s.filtered.len()) + "/"@ + crate::text::decimal(s.memories.len())
            + " memories (press / to search)"@
    }
}

} // verus!
