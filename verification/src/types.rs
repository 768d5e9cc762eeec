//! The memory entry and its kinds.

use vstd::prelude::*;
use crate::text::{ascii_lower, lower_text, str_eq, strs, to_lower_text};

verus! {

/// What a memory records about a project.
#[derive(Debug, Clone, Copy, PartialEq, Eq, Structural)]
pub enum MemoryKind {
    Convention,
    Pattern,
    Decision,
    Preference,
    Context,
}

/// The lower-case name of a kind, as it is displayed and stored.
pub open spec fn kind_name(k: MemoryKind) -> Seq<char> {
    match k {
        MemoryKind::Convention => "convention"@,
        MemoryKind::Pattern => "pattern"@,
        MemoryKind::Decision => "decision"@,
        MemoryKind::Preference => "preference"@,
        MemoryKind::Context => "context"@,
    }
}

/// The kind that a lower-cased name or abbreviation stands for.
pub open spec fn kind_from_lower(l: Seq<char>) -> Option<MemoryKind> {
    if l == "convention"@ || l == "conv"@ {
        Some(MemoryKind::Convention)
    } else if l == "pattern"@ || l == "pat"@ {
        Some(MemoryKind::Pattern)
    } else if l == "decision"@ || l == "dec"@ {
        Some(MemoryKind::Decision)
    } else if l == "preference"@ || l == "pref"@ {
        Some(MemoryKind::Preference)
    } else if l == "context"@ || l == "ctx"@ {
        Some(MemoryKind::Context)
    } else {
        None
    }
}

/// The kind that a name stands for, compared without case.
pub open spec fn kind_from_name(s: Seq<char>) -> Option<MemoryKind> {
    kind_from_lower(lower_text(s))
}

/// The ASCII lower-case of a character sequence.
pub open spec fn ascii_lower_seq(s: Seq<char>) -> Seq<char> {
    s.map_values(|c: char| ascii_lower(c))
}

/// The message given for a name that is no kind.
pub open spec fn unknown_kind_message(s: Seq<char>) -> Seq<char> {
    "Unknown kind: '"@ + s + "'. Use: convention, pattern, decision, preference, context"@
}

impl MemoryKind {
    /// Every kind, in declaration order.
    pub fn all() -> (r: Vec<MemoryKind>)
        ensures
            r@ == seq![
                MemoryKind::Convention,
                MemoryKind::Pattern,
                MemoryKind::Decision,
                MemoryKind::Preference,
                MemoryKind::Context,
            ],
    {
        let r = vec![
            MemoryKind::Convention,
            MemoryKind::Pattern,
            MemoryKind::Decision,
            MemoryKind::Preference,
            MemoryKind::Context,
        ];
        assert(r@ =~= seq![
            MemoryKind::Convention,
            MemoryKind::Pattern,
            MemoryKind::Decision,
            MemoryKind::Preference,
            MemoryKind::Context,
        ]);
        r
    }

    /// The lower-case name of the kind.
    pub fn to_string(&self) -> (r: String)
        ensures
            r@ == kind_name(*self),
    {
        match self {
            MemoryKind::Convention => "convention".to_owned(),
            MemoryKind::Pattern => "pattern".to_owned(),
            MemoryKind::Decision => "decision".to_owned(),
            MemoryKind::Preference => "preference".to_owned(),
            MemoryKind::Context => "context".to_owned(),
        }
    }

    /// Parses a kind name or its abbreviation, without regard to case.
    pub fn parse_kind(s: &str) -> (r: Result<MemoryKind, String>)
        ensures
            match r {
                Ok(k) => kind_from_name(s@) == Some(k),
                Err(e) => kind_from_name(s@) is None && e@ == unknown_kind_message(s@),
            },
            vstd::utf8::is_ascii_chars(s@) ==> kind_from_name(s@) == kind_from_lower(
                ascii_lower_seq(s@),
            ),
    {
        let l = to_lower_text(s);
        let l = l.as_str();
        if str_eq(l, "convention") || str_eq(l, "conv") {
            Ok(MemoryKind::Convention)
        } else if str_eq(l, "pattern") || str_eq(l, "pat") {
            Ok(MemoryKind::Pattern)
        } else if str_eq(l, "decision") || str_eq(l, "dec") {
            Ok(MemoryKind::Decision)
        } else if str_eq(l, "preference") || str_eq(l, "pref") {
            Ok(MemoryKind::Preference)
        } else if str_eq(l, "context") || str_eq(l, "ctx") {
            Ok(MemoryKind::Context)
        } else {
            let mut e = "Unknown kind: '".to_owned();
            e.append(s);
            e.append("'. Use: convention, pattern, decision, preference, context");
            Err(e)
        }
    }
}

impl std::str::FromStr for MemoryKind {
    type Err = String;

    fn from_str(s: &str) -> (r: Result<MemoryKind, String>)
        ensures
            match r {
                Ok(k) => kind_from_name(s@) == Some(k),
                Err(e) => kind_from_name(s@) is None && e@ == unknown_kind_message(s@),
            },
            vstd::utf8::is_ascii_chars(s@) ==> kind_from_name(s@) == kind_from_lower(ascii_lower_seq(s@)),
    {
        MemoryKind::parse_kind(s)
    }
}


/// Copies a list of strings.
pub fn copy_strings(v: &Vec<String>) -> (r: Vec<String>)
    ensures
        r@ == v@,
        strs(r@) == strs(v@),
{
    let r = v.clone();
    assert(r@ =~= v@);
    r
}

/// One stored memory. Times are microseconds since the Unix epoch, in UTC.
#[derive(Debug, Clone)]
pub struct Memory {
    pub id: String,
    pub kind: MemoryKind,
    pub key: String,
    pub content: String,
    pub tags: Vec<String>,
    pub related_ids: Vec<String>,
    pub created_at: i64,
    pub updated_at: i64,
}

/// The plain value of a memory.
pub struct MemoryView {
    pub id: Seq<char>,
    pub kind: MemoryKind,
    pub key: Seq<char>,
    pub content: Seq<char>,
    pub tags: Seq<Seq<char>>,
    pub related_ids: Seq<Seq<char>>,
    pub created_at: i64,
    pub updated_at: i64,
}

impl View for Memory {
    type V = MemoryView;

    open spec fn view(&self) -> MemoryView {
        MemoryView {
            id: self.id@,
            kind: self.kind,
            key: self.key@,
            content: self.content@,
            tags: strs(self.tags@),
            related_ids: strs(self.related_ids@),
            created_at: self.created_at,
            updated_at: self.updated_at,
        }
    }
}

/// The plain values of a sequence of memories.
pub open spec fn memory_views(v: Seq<Memory>) -> Seq<MemoryView> {
    v.map_values(|m: Memory| m@)
}

impl Memory {
    /// A copy of this memory.
    pub fn copy(&self) -> (r: Memory)
        ensures
            r@ == self@,
    {
        Memory {
            id: self.id.clone(),
            kind: self.kind,
            key: self.key.clone(),
            content: self.content.clone(),
            tags: copy_strings(&self.tags),
            related_ids: copy_strings(&self.related_ids),
            created_at: self.created_at,
            updated_at: self.updated_at,
        }
    }
}

/// Copies a list of memories.
pub fn copy_memories(v: &[Memory]) -> (r: Vec<Memory>)
    ensures
        memory_views(r@) == memory_views(v@),
{
    let mut r: Vec<Memory> = Vec::new();
    let mut i: usize = 0;
    while i < v.len()
        invariant
            i <= v.len(),
            memory_views(r@) == memory_views(v@).take(i as int),
        decreases v.len() - i,
    {
        let ghost old_r = r@;
        let c = v[i].copy();
        r.push(c);
        assert(memory_views(r@) =~= memory_views(old_r).push(c@));
        assert(memory_views(r@) =~= memory_views(v@).take(i + 1));
        i = i + 1;
    }
    assert(memory_views(v@).take(v.len() as int) =~= memory_views(v@));
    r
}

/// What a new memory is made from.
#[derive(Debug, Clone)]
pub struct MemoryInput {
    pub kind: MemoryKind,
    pub key: String,
    pub content: String,
    pub tags: Vec<String>,
    pub related_ids: Vec<String>,
}

/// The plain value of a memory input.
pub struct MemoryInputView {
    pub kind: MemoryKind,
    pub key: Seq<char>,
    pub content: Seq<char>,
    pub tags: Seq<Seq<char>>,
    pub related_ids: Seq<Seq<char>>,
}

impl View for MemoryInput {
    type V = MemoryInputView;

    open spec fn view(&self) -> MemoryInputView {
        MemoryInputView {
            kind: self.kind,
            key: self.key@,
            content: self.content@,
            tags: strs(self.tags@),
            related_ids: strs(self.related_ids@),
        }
    }
}

impl MemoryInput {
    /// A copy of this input.
    pub fn copy(&self) -> (r: MemoryInput)
        ensures
            r@ == self@,
    {
        MemoryInput {
            kind: self.kind,
            key: self.key.clone(),
            content: self.content.clone(),
            tags: copy_strings(&self.tags),
            related_ids: copy_strings(&self.related_ids),
        }
    }
}

/// The plain values of a sequence of memory inputs.
pub open spec fn input_views(v: Seq<MemoryInput>) -> Seq<MemoryInputView> {
    v.map_values(|m: MemoryInput| m@)
}

/// A kind's name is ASCII and already lower-case, and it parses back to the kind.
pub proof fn law_kind_name_round_trip(k: MemoryKind)
    ensures
        vstd::utf8::is_ascii_chars(kind_name(k)),
        ascii_lower_seq(kind_name(k)) == kind_name(k),
        kind_from_lower(kind_name(k)) == Some(k),
{
    reveal_strlit("convention");
    reveal_strlit("conv");
    reveal_strlit("pattern");
    reveal_strlit("pat");
    reveal_strlit("decision");
    reveal_strlit("dec");
    reveal_strlit("preference");
    reveal_strlit("pref");
    reveal_strlit("context");
    reveal_strlit("ctx");
    let n = kind_name(k);
    assert(ascii_lower_seq(n) =~= n);
    match k {
        MemoryKind::Convention => {},
        MemoryKind::Pattern => {
            assert(n.len() != "convention"@.len() && n.len() != "conv"@.len());
        },
        MemoryKind::Decision => {
            assert(n.len() != "convention"@.len() && n.len() != "conv"@.len());
            assert(n[0] != "pattern"@[0] && n.len() != "pat"@.len());
        },
        MemoryKind::Preference => {
            assert(n[0] != "convention"@[0] && n.len() != "conv"@.len());
            assert(n[1] != "pattern"@[1] && n.len() != "pat"@.len());
            assert(n[0] != "decision"@[0] && n.len() != "dec"@.len());
        },
        MemoryKind::Context => {
            assert(n[3] != "convention"@[3] && n.len() != "conv"@.len());
            assert(n[0] != "pattern"@[0] && n.len() != "pat"@.len());
            assert(n[0] != "decision"@[0] && n.len() != "dec"@.len());
            assert(n[0] != "preference"@[0] && n.len() != "pref"@.len());
        },
    }
}

} // verus!
