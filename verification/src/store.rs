//! The memory store: the memories of a project, the links made between them and
//! the audit log. The database file is read and written by the program around the
//! library; this module is the state that file holds and the rules of every
//! operation on it.

use vstd::prelude::*;
use crate::text::{strs, str_eq, append_str, other_than, chars_of};
use crate::like::{like_contains, like_contains_chars, json_list, json_list_chars};
use crate::types::{
    Memory, MemoryView, MemoryInput, MemoryInputView, MemoryKind, memory_views, kind_name,
    copy_strings,
};
use crate::runtime::{now_micros, new_uuid};

verus! {

/// Why a store operation was refused.
#[derive(Debug)]
pub enum StoreError {
    /// A memory with this id is stored already.
    DuplicateId(String),
    /// The audit log cannot number another entry.
    LogFull,
    /// Rows handed to `from_rows` break the rules of the store.
    InvalidRows,
}

/// A tag and how many times it is used.
#[derive(Debug, Clone)]
pub struct TagInfo {
    pub tag: String,
    pub count: usize,
}

/// One entry of the audit log: what was done to which memory, and when.
#[derive(Debug, Clone)]
pub struct AuditEntry {
    pub id: i64,
    pub action: String,
    pub memory_id: String,
    pub details: String,
    pub created_at: i64,
}

/// The plain value of an audit entry.
pub struct AuditView {
    pub id: i64,
    pub action: Seq<char>,
    pub memory_id: Seq<char>,
    pub details: Seq<char>,
    pub created_at: i64,
}

impl View for AuditEntry {
    type V = AuditView;

    open spec fn view(&self) -> AuditView {
        AuditView {
            id: self.id,
            action: self.action@,
            memory_id: self.memory_id@,
            details: self.details@,
            created_at: self.created_at,
        }
    }
}

/// No two memories share an id.
pub open spec fn ids_unique(ms: Seq<MemoryView>) -> bool {
    forall|i: int, j: int| 0 <= i < j < ms.len() ==> ms[i].id != ms[j].id
}

/// A memory with id `id` is stored.
pub open spec fn has_id(ms: Seq<MemoryView>, id: Seq<char>) -> bool {
    exists|i: int| 0 <= i < ms.len() && ms[i].id == id
}

/// Where the memory with id `id` stands, or -1.
pub open spec fn id_index(ms: Seq<MemoryView>, id: Seq<char>) -> int {
    if has_id(ms, id) {
        choose|i: int| 0 <= i < ms.len() && ms[i].id == id
    } else {
        -1
    }
}

/// The memory with id `id`, if one is stored.
pub open spec fn lookup(ms: Seq<MemoryView>, id: Seq<char>) -> Option<MemoryView> {
    if has_id(ms, id) {
        Some(ms[id_index(ms, id)])
    } else {
        None
    }
}

/// With unique ids, the index of an id is where it stands.
pub proof fn lemma_id_index(ms: Seq<MemoryView>, id: Seq<char>, i: int)
    requires
        ids_unique(ms),
        0 <= i < ms.len(),
        ms[i].id == id,
    ensures
        has_id(ms, id),
        id_index(ms, id) == i,
        lookup(ms, id) == Some(ms[i]),
{
    let j = choose|j: int| 0 <= j < ms.len() && ms[j].id == id;
    assert(0 <= j < ms.len() && ms[j].id == id);
}

/// The details that the log records for a new memory: `kind: key`.
pub open spec fn entry_details(kind: MemoryKind, key: Seq<char>) -> Seq<char> {
    kind_name(kind) + ": "@ + key
}

/// The memory that an input becomes under a given id at a given time.
pub open spec fn memory_from(input: MemoryInputView, id: Seq<char>, now: i64) -> MemoryView {
    MemoryView {
        id: id,
        kind: input.kind,
        key: input.key,
        content: input.content,
        tags: input.tags,
        related_ids: input.related_ids,
        created_at: now,
        updated_at: now,
    }
}

/// A memory rewritten from an input at a given time; its id and creation time stay.
pub open spec fn memory_rewritten(m: MemoryView, input: MemoryInputView, now: i64) -> MemoryView {
    MemoryView {
        id: m.id,
        kind: input.kind,
        key: input.key,
        content: input.content,
        tags: input.tags,
        related_ids: input.related_ids,
        created_at: m.created_at,
        updated_at: now,
    }
}

/// A log entry numbered `n`.
pub open spec fn log_entry(n: nat, action: Seq<char>, memory_id: Seq<char>, details: Seq<char>, at: i64) -> AuditView {
    AuditView { id: n as i64, action, memory_id, details, created_at: at }
}

/// The link pairs without those that touch `id`.
pub open spec fn links_without(ls: Seq<(Seq<char>, Seq<char>)>, id: Seq<char>) -> Seq<(Seq<char>, Seq<char>)> {
    ls.filter(|p: (Seq<char>, Seq<char>)| p.0 != id && p.1 != id)
}

/// The memories of a project, its link table and its audit log.
pub struct MemoryStore {
    memories: Vec<Memory>,
    links: Vec<(String, String)>,
    audit: Vec<AuditEntry>,
}

impl MemoryStore {
    /// The stored memories, in the order they were stored.
    pub closed spec fn memories(&self) -> Seq<MemoryView> {
        memory_views(self.memories@)
    }

    /// The link table: pairs of source and target id.
    pub closed spec fn links(&self) -> Seq<(Seq<char>, Seq<char>)> {
        self.links@.map_values(|p: (String, String)| (p.0@, p.1@))
    }

    /// The audit log, oldest first.
    pub closed spec fn audit_log(&self) -> Seq<AuditView> {
        self.audit@.map_values(|e: AuditEntry| e@)
    }

    /// The rules of the store: ids are unique, and log entries are numbered from one.
    pub closed spec fn wf(&self) -> bool {
        &&& ids_unique(self.memories())
        &&& forall|i: int| 0 <= i < self.audit@.len() ==> #[trigger] self.audit@[i].id == i + 1
    }

    /// A store holds at most as many memories as a vector can.
    pub proof fn lemma_len_bound(&self)
        ensures
            self.memories().len() <= usize::MAX,
    {
        assert(self.memories().len() == self.memories@.len());
        assert(self.memories@.len() == self.memories.len());
    }

    /// In a well-formed store no two memories share an id.
    pub proof fn lemma_wf_ids(&self)
        requires
            self.wf(),
        ensures
            ids_unique(self.memories()),
    {
    }

    /// An empty store.
    pub fn new() -> (s: Self)
        ensures
            s.wf(),
            s.memories() == Seq::<MemoryView>::empty(),
            s.links() == Seq::<(Seq<char>, Seq<char>)>::empty(),
            s.audit_log() == Seq::<AuditView>::empty(),
    {
        let s = MemoryStore { memories: Vec::new(), links: Vec::new(), audit: Vec::new() };
        assert(s.memories() =~= Seq::<MemoryView>::empty());
        assert(s.links() =~= Seq::<(Seq<char>, Seq<char>)>::empty());
        assert(s.audit_log() =~= Seq::<AuditView>::empty());
        s
    }

    /// Where the memory with id `id` stands.
    fn index_of_id(&self, id: &str) -> (r: Option<usize>)
        requires
            self.wf(),
        ensures
            match r {
                Some(i) => i < self.memories().len() && self.memories()[i as int].id == id@
                    && id_index(self.memories(), id@) == i,
                None => !has_id(self.memories(), id@),
            },
    {
        let mut i: usize = 0;
        while i < self.memories.len()
            invariant
                i <= self.memories.len(),
                self.wf(),
                forall|j: int| 0 <= j < i ==> self.memories()[j].id != id@,
            decreases self.memories.len() - i,
        {
            if str_eq(self.memories[i].id.as_str(), id) {
                proof {
                    lemma_id_index(self.memories(), id@, i as int);
                }
                return Some(i);
            }
            i = i + 1;
        }
        None
    }

    /// Appends an entry to the audit log, numbered one past the last.
    fn push_log(&mut self, action: String, memory_id: String, details: String, at: i64) -> (r: Result<(), StoreError>)
        requires
            old(self).wf(),
        ensures
            final(self).wf(),
            final(self).memories() == old(self).memories(),
            final(self).links() == old(self).links(),
            match r {
                Ok(()) => final(self).audit_log() == old(self).audit_log().push(
                    log_entry(old(self).audit_log().len() + 1, action@, memory_id@, details@, at),
                ),
                Err(e) => final(self).audit_log() == old(self).audit_log() && e is LogFull
                    && old(self).audit_log().len() >= i64::MAX,
            },
    {
        let n = self.audit.len();
        if n as u64 >= 0x7fff_ffff_ffff_ffffu64 {
            return Err(StoreError::LogFull);
        }
        let ghost before = self.audit_log();
        let id: i64 = (n as i64) + 1;
        self.audit.push(AuditEntry { id, action, memory_id, details, created_at: at });
        assert(self.audit_log() =~= before.push(log_entry((n + 1) as nat, action@, memory_id@, details@, at)));
        Ok(())
    }

    /// Stores a memory made from `input` under id `id` at time `now`, and logs it as
    /// added. Refused when the id is taken or the log is full.
    pub fn insert(&mut self, input: MemoryInput, id: String, now: i64) -> (r: Result<Memory, StoreError>)
        requires
            old(self).wf(),
        ensures
            final(self).wf(),
            final(self).links() == old(self).links(),
            match r {
                Ok(m) => {
                    &&& !has_id(old(self).memories(), id@)
                    &&& old(self).audit_log().len() < i64::MAX
                    &&& m@ == memory_from(input@, id@, now)
                    &&& final(self).memories() == old(self).memories().push(m@)
                    &&& final(self).audit_log() == old(self).audit_log().push(
                        log_entry(old(self).audit_log().len() + 1, "add"@, id@,
                            entry_details(input@.kind, input@.key), now))
                },
                Err(e) => {
                    &&& final(self).memories() == old(self).memories()
                    &&& final(self).audit_log() == old(self).audit_log()
                    &&& (e is DuplicateId <==> has_id(old(self).memories(), id@))
                    &&& (e is LogFull <==> !has_id(old(self).memories(), id@)
                        && old(self).audit_log().len() >= i64::MAX)
                    &&& (e is DuplicateId || e is LogFull)
                    &&& (e matches StoreError::DuplicateId(d) ==> d@ == id@)
                },
            },
    {
        match self.index_of_id(id.as_str()) {
            Some(_) => {
                return Err(StoreError::DuplicateId(id));
            },
            None => {},
        }
        if self.audit.len() as u64 >= 0x7fff_ffff_ffff_ffffu64 {
            return Err(StoreError::LogFull);
        }
        let mut details = input.kind.to_string();
        append_str(&mut details, ": ");
        append_str(&mut details, input.key.as_str());
        let ghost iv = input@;
        let m = Memory {
            id: id.clone(),
            kind: input.kind,
            key: input.key,
            content: input.content,
            tags: input.tags,
            related_ids: input.related_ids,
            created_at: now,
            updated_at: now,
        };
        assert(m@ == memory_from(iv, id@, now));
        let ghost before = self.memories();
        let c = m.copy();
        self.memories.push(c);
        assert(self.memories() =~= before.push(m@));
        proof {
            assert forall|i: int, j: int| 0 <= i < j < self.memories().len() implies
                self.memories()[i].id != self.memories()[j].id by {
                if j == before.len() {
                    assert(before[i].id == self.memories()[i].id);
                }
            }
        }
        assert(details@ == entry_details(iv.kind, iv.key));
        let r = self.push_log("add".to_owned(), id, details, now);
        match r {
            Ok(()) => Ok(m),
            Err(e) => {
                proof {
                    assert(false);
                }
                Err(e)
            },
        }
    }

    /// Stores a new memory under a fresh random id, created and updated now, and logs
    /// it as added. Whatever id and time came back, the memory holds the input's
    /// fields and is appended; when the id was taken, nothing changes.
    pub fn add(&mut self, input: MemoryInput) -> (r: Result<Memory, StoreError>)
        requires
            old(self).wf(),
        ensures
            final(self).wf(),
            final(self).links() == old(self).links(),
            match r {
                Ok(m) => {
                    &&& !has_id(old(self).memories(), m@.id)
                    &&& m@ == memory_from(input@, m@.id, m@.created_at)
                    &&& m@.id.len() == 36
                    &&& final(self).memories() == old(self).memories().push(m@)
                    &&& lookup(final(self).memories(), m@.id) == Some(m@)
                    &&& final(self).audit_log() == old(self).audit_log().push(
                        log_entry(old(self).audit_log().len() + 1, "add"@, m@.id,
                            entry_details(input@.kind, input@.key), m@.created_at))
                },
                Err(e) => {
                    &&& final(self).memories() == old(self).memories()
                    &&& final(self).audit_log() == old(self).audit_log()
                    &&& (e is DuplicateId || e is LogFull)
                    &&& (e is LogFull ==> old(self).audit_log().len() >= i64::MAX)
                    &&& (e matches StoreError::DuplicateId(d) ==> has_id(old(self).memories(), d@))
                },
            },
            old(self).audit_log().len() >= i64::MAX ==> r is Err,
            old(self).memories().len() == 0 && old(self).audit_log().len() < i64::MAX ==> r is Ok,
    {
        let id = new_uuid();
        let now = now_micros();
        let ghost before = self.memories();
        let r = self.insert(input, id, now);
        proof {
            if r is Ok {
                law_read_after_write(before, r->Ok_0@, r->Ok_0@.id);
            }
        }
        r
    }

    /// The memory with id `id`, if one is stored.
    pub fn get(&self, id: &str) -> (r: Result<Option<Memory>, StoreError>)
        requires
            self.wf(),
        ensures
            r matches Ok(o) && match o {
                Some(m) => lookup(self.memories(), id@) == Some(m@),
                None => lookup(self.memories(), id@) is None,
            },
    {
        match self.index_of_id(id) {
            Some(i) => {
                proof {
                    lemma_id_index(self.memories(), id@, i as int);
                }
                Ok(Some(self.memories[i].copy()))
            },
            None => Ok(None),
        }
    }

    /// Replaces the memory at `i` by one with the same id.
    fn set_memory(&mut self, i: usize, m: Memory)
        requires
            old(self).wf(),
            i < old(self).memories().len(),
            m@.id == old(self).memories()[i as int].id,
        ensures
            final(self).wf(),
            final(self).memories() == old(self).memories().update(i as int, m@),
            final(self).links() == old(self).links(),
            final(self).audit_log() == old(self).audit_log(),
    {
        let ghost before = self.memories();
        let ghost mv = m@;
        self.memories.set(i, m);
        assert(self.memories() =~= before.update(i as int, mv));
        assert forall|a: int, b: int| 0 <= a < b < self.memories().len() implies
            self.memories()[a].id != self.memories()[b].id by {
            assert(self.memories()[a].id == before[a].id);
            assert(self.memories()[b].id == before[b].id);
        }
    }

    /// Copies of the memories of one kind (or all), in stored order.
    fn memories_of_kind(&self, kind: Option<MemoryKind>) -> (r: Vec<Memory>)
        ensures
            memory_views(r@) == of_kind(self.memories(), kind),
    {
        match kind {
            None => crate::types::copy_memories(self.memories.as_slice()),
            Some(k) => {
                let ghost s = self.memories();
                let ghost f = |m: MemoryView| m.kind == k;
                let mut r: Vec<Memory> = Vec::new();
                let mut i: usize = 0;
                assert(s.take(0) =~= Seq::<MemoryView>::empty());
                while i < self.memories.len()
                    invariant
                        i <= self.memories.len(),
                        s == self.memories(),
                        f == (|m: MemoryView| m.kind == k),
                        memory_views(r@) == s.take(i as int).filter(f),
                    decreases self.memories.len() - i,
                {
                    assert(s.take(i + 1).drop_last() =~= s.take(i as int));
                    assert(s.take(i + 1).last() == self.memories@[i as int]@);
                    reveal_with_fuel(Seq::filter, 1);
                    if self.memories[i].kind == k {
                        let ghost before = memory_views(r@);
                        let c = self.memories[i].copy();
                        r.push(c);
                        assert(memory_views(r@) =~= before.push(c@));
                    }
                    i = i + 1;
                }
                assert(s.take(self.memories.len() as int) =~= s);
                r
            },
        }
    }

    /// Copies of the `n` most recently updated memories, most recent first.
    fn recent(&self, n: usize) -> (r: Vec<Memory>)
        ensures
            memory_views(r@) == first_n(recent_first(self.memories()), n as int),
    {
        let mut v = sort_recent(self.memories.as_slice());
        proof {
            lemma_recent_first_len(self.memories());
        }
        let ghost before = memory_views(v@);
        v.truncate(n);
        assert(memory_views(v@) =~= first_n(before, n as int));
        v
    }

    /// Up to `limit` memories of one kind (or of every kind), most recently updated first.
    pub fn list(&self, kind: Option<MemoryKind>, limit: usize) -> (r: Result<Vec<Memory>, StoreError>)
        ensures
            r matches Ok(v) && memory_views(v@) == first_n(recent_first(of_kind(self.memories(), kind)), limit as int),
    {
        let f = self.memories_of_kind(kind);
        let mut v = sort_recent(f.as_slice());
        proof {
            lemma_recent_first_len(memory_views(f@));
        }
        let ghost before = memory_views(v@);
        v.truncate(limit);
        assert(memory_views(v@) =~= first_n(before, limit as int));
        Ok(v)
    }

    /// Every memory, most recently updated first (up to a million).
    pub fn export_json(&self) -> (r: Result<Vec<Memory>, StoreError>)
        ensures
            r matches Ok(v) && memory_views(v@) == first_n(recent_first(self.memories()), 1000000),
    {
        self.list(None, 1000000)
    }

    /// Rewrites the memory `id` from `input` at time `now`; `None` when no such memory.
    pub fn update_at(&mut self, id: &str, input: MemoryInput, now: i64) -> (r: Result<Option<Memory>, StoreError>)
        requires
            old(self).wf(),
        ensures
            final(self).wf(),
            final(self).links() == old(self).links(),
            final(self).audit_log() == old(self).audit_log(),
            r matches Ok(o) && match o {
                Some(m) => {
                    &&& has_id(old(self).memories(), id@)
                    &&& m@ == memory_rewritten(old(self).memories()[id_index(old(self).memories(), id@)], input@, now)
                    &&& final(self).memories() == old(self).memories().update(id_index(old(self).memories(), id@), m@)
                },
                None => !has_id(old(self).memories(), id@) && final(self).memories() == old(self).memories(),
            },
    {
        match self.index_of_id(id) {
            Some(i) => {
                let ghost iv = input@;
                let old_m = &self.memories[i];
                let m = Memory {
                    id: old_m.id.clone(),
                    kind: input.kind,
                    key: input.key,
                    content: input.content,
                    tags: input.tags,
                    related_ids: input.related_ids,
                    created_at: old_m.created_at,
                    updated_at: now,
                };
                assert(m@ == memory_rewritten(self.memories()[i as int], iv, now));
                let c = m.copy();
                self.set_memory(i, c);
                Ok(Some(m))
            },
            None => Ok(None),
        }
    }

    /// Rewrites the memory `id` from `input`, updated now; `None` when no such memory.
    pub fn update(&mut self, id: &str, input: MemoryInput) -> (r: Result<Option<Memory>, StoreError>)
        requires
            old(self).wf(),
        ensures
            final(self).wf(),
            final(self).links() == old(self).links(),
            final(self).audit_log() == old(self).audit_log(),
            r matches Ok(o) && match o {
                Some(m) => {
                    &&& has_id(old(self).memories(), id@)
                    &&& m@ == memory_rewritten(old(self).memories()[id_index(old(self).memories(), id@)], input@, m@.updated_at)
                    &&& final(self).memories() == old(self).memories().update(id_index(old(self).memories(), id@), m@)
                },
                None => !has_id(old(self).memories(), id@) && final(self).memories() == old(self).memories(),
            },
    {
        let now = now_micros();
        self.update_at(id, input, now)
    }

    /// The link table without the pairs that touch `id`.
    fn drop_links_of(&mut self, id: &str)
        requires
            old(self).wf(),
        ensures
            final(self).wf(),
            final(self).memories() == old(self).memories(),
            final(self).audit_log() == old(self).audit_log(),
            final(self).links() == links_without(old(self).links(), id@),
    {
        let ghost s = self.links();
        let ghost f = |p: (Seq<char>, Seq<char>)| p.0 != id@ && p.1 != id@;
        let mut kept: Vec<(String, String)> = Vec::new();
        let mut i: usize = 0;
        assert(s.take(0) =~= Seq::<(Seq<char>, Seq<char>)>::empty());
        while i < self.links.len()
            invariant
                i <= self.links.len(),
                s == self.links(),
                f == (|p: (Seq<char>, Seq<char>)| p.0 != id@ && p.1 != id@),
                kept@.map_values(|p: (String, String)| (p.0@, p.1@)) == s.take(i as int).filter(f),
            decreases self.links.len() - i,
        {
            assert(s.take(i + 1).drop_last() =~= s.take(i as int));
            assert(s.take(i + 1).last() == s[i as int]);
            reveal_with_fuel(Seq::filter, 1);
            let a = &self.links[i].0;
            let b = &self.links[i].1;
            if !str_eq(a.as_str(), id) && !str_eq(b.as_str(), id) {
                let ghost before = kept@.map_values(|p: (String, String)| (p.0@, p.1@));
                kept.push((a.clone(), b.clone()));
                assert(kept@.map_values(|p: (String, String)| (p.0@, p.1@)) =~= before.push(s[i as int]));
            }
            i = i + 1;
        }
        assert(s.take(self.links.len() as int) =~= s);
        self.links = kept;
    }

    /// Deletes the memory `id`, and the link pairs that touch it; whether it was stored.
    pub fn delete(&mut self, id: &str) -> (r: Result<bool, StoreError>)
        requires
            old(self).wf(),
        ensures
            final(self).wf(),
            final(self).audit_log() == old(self).audit_log(),
            r == Ok::<bool, StoreError>(has_id(old(self).memories(), id@)),
            has_id(old(self).memories(), id@) ==> final(self).memories() == old(self).memories().remove(
                id_index(old(self).memories(), id@),
            ) && final(self).links() == links_without(old(self).links(), id@),
            !has_id(old(self).memories(), id@) ==> final(self).memories() == old(self).memories()
                && final(self).links() == old(self).links(),
            !has_id(final(self).memories(), id@),
    {
        match self.index_of_id(id) {
            Some(i) => {
                let ghost before = self.memories();
                self.memories.remove(i);
                assert(self.memories() =~= before.remove(i as int));
                assert forall|a: int, b: int| 0 <= a < b < self.memories().len() implies
                    self.memories()[a].id != self.memories()[b].id by {
                    let oa = if a < i { a } else { a + 1 };
                    let ob = if b < i { b } else { b + 1 };
                    assert(self.memories()[a] == before[oa]);
                    assert(self.memories()[b] == before[ob]);
                }
                assert forall|j: int| 0 <= j < self.memories().len() implies self.memories()[j].id != id@ by {
                    let oj = if j < i { j } else { j + 1 };
                    assert(self.memories()[j] == before[oj]);
                }
                self.drop_links_of(id);
                Ok(true)
            },
            None => Ok(false),
        }
    }

    /// Whether the link table holds the pair `(a, b)`.
    fn has_link(&self, a: &str, b: &str) -> (r: bool)
        ensures
            r == self.links().contains((a@, b@)),
    {
        let mut i: usize = 0;
        while i < self.links.len()
            invariant
                i <= self.links.len(),
                forall|j: int| 0 <= j < i ==> self.links()[j] != (a@, b@),
            decreases self.links.len() - i,
        {
            if str_eq(self.links[i].0.as_str(), a) && str_eq(self.links[i].1.as_str(), b) {
                assert(self.links()[i as int] == (a@, b@));
                return true;
            }
            i = i + 1;
        }
        false
    }

    /// Links `src` to `dst`: records the pair and adds `dst` to the related ids of
    /// `src` when it is not there. `false`, and nothing changes, unless both are stored.
    pub fn link(&mut self, src: &str, dst: &str) -> (r: Result<bool, StoreError>)
        requires
            old(self).wf(),
        ensures
            final(self).wf(),
            final(self).audit_log() == old(self).audit_log(),
            r == Ok::<bool, StoreError>(has_id(old(self).memories(), src@) && has_id(old(self).memories(), dst@)),
            !(has_id(old(self).memories(), src@) && has_id(old(self).memories(), dst@)) ==> final(self).memories()
                == old(self).memories() && final(self).links() == old(self).links(),
            has_id(old(self).memories(), src@) && has_id(old(self).memories(), dst@) ==> {
                let i = id_index(old(self).memories(), src@);
                let m = old(self).memories()[i];
                &&& final(self).links() == link_added(old(self).links(), src@, dst@)
                &&& final(self).memories() == old(self).memories().update(
                    i,
                    with_related(m, crate::text::push_absent(m.related_ids, dst@)),
                )
            },
    {
        let si = match self.index_of_id(src) {
            Some(i) => i,
            None => {
                return Ok(false);
            },
        };
        match self.index_of_id(dst) {
            Some(_) => {},
            None => {
                return Ok(false);
            },
        }
        if !self.has_link(src, dst) {
            let ghost before = self.links();
            self.links.push((src.to_owned(), dst.to_owned()));
            assert(self.links() =~= before.push((src@, dst@)));
        }
        let mut m = self.memories[si].copy();
        let ghost mv = m@;
        if !crate::text::contains_str(m.related_ids.as_slice(), dst) {
            m.related_ids.push(dst.to_owned());
            assert(strs(m.related_ids@) =~= mv.related_ids.push(dst@));
        }
        assert(m@ == with_related(mv, crate::text::push_absent(mv.related_ids, dst@)));
        self.set_memory(si, m);
        Ok(true)
    }

    /// Unlinks `src` from `dst`: drops the pair and removes `dst` from the related ids
    /// of `src` (when `src` is stored).
    pub fn unlink(&mut self, src: &str, dst: &str) -> (r: Result<bool, StoreError>)
        requires
            old(self).wf(),
        ensures
            final(self).wf(),
            final(self).audit_log() == old(self).audit_log(),
            r == Ok::<bool, StoreError>(true),
            final(self).links() == link_removed(old(self).links(), src@, dst@),
            !has_id(old(self).memories(), src@) ==> final(self).memories() == old(self).memories(),
            has_id(old(self).memories(), src@) ==> {
                let i = id_index(old(self).memories(), src@);
                let m = old(self).memories()[i];
                final(self).memories() == old(self).memories().update(
                    i,
                    with_related(m, m.related_ids.filter(other_than(dst@))),
                )
            },
    {
        let ghost s = self.links();
        let ghost f = |p: (Seq<char>, Seq<char>)| !(p.0 == src@ && p.1 == dst@);
        let mut kept: Vec<(String, String)> = Vec::new();
        let mut i: usize = 0;
        assert(s.take(0) =~= Seq::<(Seq<char>, Seq<char>)>::empty());
        while i < self.links.len()
            invariant
                i <= self.links.len(),
                s == self.links(),
                f == (|p: (Seq<char>, Seq<char>)| !(p.0 == src@ && p.1 == dst@)),
                kept@.map_values(|p: (String, String)| (p.0@, p.1@)) == s.take(i as int).filter(f),
            decreases self.links.len() - i,
        {
            assert(s.take(i + 1).drop_last() =~= s.take(i as int));
            assert(s.take(i + 1).last() == s[i as int]);
            reveal_with_fuel(Seq::filter, 1);
            let a = &self.links[i].0;
            let b = &self.links[i].1;
            if !(str_eq(a.as_str(), src) && str_eq(b.as_str(), dst)) {
                let ghost before = kept@.map_values(|p: (String, String)| (p.0@, p.1@));
                kept.push((a.clone(), b.clone()));
                assert(kept@.map_values(|p: (String, String)| (p.0@, p.1@)) =~= before.push(s[i as int]));
            }
            i = i + 1;
        }
        assert(s.take(self.links.len() as int) =~= s);
        self.links = kept;
        match self.index_of_id(src) {
            Some(si) => {
                let mut m = self.memories[si].copy();
                let ghost mv = m@;
                m.related_ids = crate::text::strings_without(m.related_ids.as_slice(), dst);
                assert(m@ == with_related(mv, mv.related_ids.filter(other_than(dst@))));
                self.set_memory(si, m);
            },
            None => {},
        }
        Ok(true)
    }

    /// The memories that `id` names as related, in order; unknown ids are skipped.
    /// Empty when `id` itself is not stored.
    pub fn get_related(&self, id: &str) -> (r: Result<Vec<Memory>, StoreError>)
        requires
            self.wf(),
        ensures
            r matches Ok(v) && memory_views(v@) == match lookup(self.memories(), id@) {
                Some(m) => resolve_all(self.memories(), m.related_ids),
                None => Seq::<MemoryView>::empty(),
            },
    {
        let i = match self.index_of_id(id) {
            Some(i) => i,
            None => {
                let v: Vec<Memory> = Vec::new();
                assert(memory_views(v@) =~= Seq::<MemoryView>::empty());
                return Ok(v);
            },
        };
        proof {
            lemma_id_index(self.memories(), id@, i as int);
        }
        let rids = &self.memories[i].related_ids;
        let ghost rs = strs(rids@);
        let mut v: Vec<Memory> = Vec::new();
        let mut j: usize = 0;
        assert(rs.take(0) =~= Seq::<Seq<char>>::empty());
        while j < rids.len()
            invariant
                self.wf(),
                j <= rids.len(),
                rs == strs(rids@),
                memory_views(v@) == resolve_all(self.memories(), rs.take(j as int)),
            decreases rids.len() - j,
        {
            assert(rs.take(j + 1).drop_last() =~= rs.take(j as int));
            assert(rs.take(j + 1).last() == rids@[j as int]@);
            match self.index_of_id(rids[j].as_str()) {
                Some(k) => {
                    proof {
                        lemma_id_index(self.memories(), rids@[j as int]@, k as int);
                    }
                    let ghost before = memory_views(v@);
                    let c = self.memories[k].copy();
                    v.push(c);
                    assert(memory_views(v@) =~= before.push(c@));
                },
                None => {},
            }
            j = j + 1;
        }
        assert(rs.take(rids.len() as int) =~= rs);
        Ok(v)
    }

    /// How many memories are of kind `k`.
    fn count_kind(&self, k: MemoryKind) -> (c: usize)
        ensures
            c == kind_count(self.memories(), k),
    {
        let ghost s = self.memories();
        let ghost f = |m: MemoryView| m.kind == k;
        let mut c: usize = 0;
        let mut i: usize = 0;
        assert(s.take(0) =~= Seq::<MemoryView>::empty());
        while i < self.memories.len()
            invariant
                i <= self.memories.len(),
                s == self.memories(),
                f == (|m: MemoryView| m.kind == k),
                c == s.take(i as int).filter(f).len(),
                c <= i,
            decreases self.memories.len() - i,
        {
            assert(s.take(i + 1).drop_last() =~= s.take(i as int));
            assert(s.take(i + 1).last() == self.memories@[i as int]@);
            reveal_with_fuel(Seq::filter, 1);
            if self.memories[i].kind == k {
                c = c + 1;
            }
            i = i + 1;
        }
        assert(s.take(self.memories.len() as int) =~= s);
        c
    }

    /// Each kind that occurs with its number of memories, most frequent first.
    pub fn count_by_kind(&self) -> (r: Result<Vec<(MemoryKind, usize)>, StoreError>)
        ensures
            r matches Ok(v) && is_kind_census(self.memories(), v@),
    {
        let kinds = MemoryKind::all();
        let ghost ks = kinds@;
        let mut v: Vec<(MemoryKind, usize)> = Vec::new();
        let mut i: usize = 0;
        while i < kinds.len()
            invariant
                i <= kinds.len(),
                kinds@ == ks,
                ks == all_kinds(),
                census_prefix(self.memories(), ks, i as int, v@),
            decreases kinds.len() - i,
        {
            let k = kinds[i];
            let c = self.count_kind(k);
            if c > 0 {
                let ghost o = v@;
                let p = insert_by_count(&mut v, k, c);
                proof {
                    lemma_census_insert(self.memories(), ks, i as int, o, v@, p as int, k, c);
                }
            } else {
                proof {
                    lemma_census_skip(self.memories(), ks, i as int, v@);
                }
            }
            i = i + 1;
        }
        proof {
            lemma_census_complete(self.memories(), v@);
        }
        Ok(v)
    }

    /// Adds a memory for each input, in order, each under a fresh id; how many.
    /// It stops at the first refusal, keeping what was added before it.
    pub fn import_memories(&mut self, memories: Vec<MemoryInput>) -> (r: Result<usize, StoreError>)
        requires
            old(self).wf(),
        ensures
            final(self).wf(),
            final(self).links() == old(self).links(),
            added_from(old(self).memories(), final(self).memories(), crate::types::input_views(memories@)),
            match r {
                Ok(n) => n == memories.len() && final(self).memories().len() == old(self).memories().len() + n,
                Err(e) => {
                    &&& final(self).memories().len() < old(self).memories().len() + memories.len()
                    &&& (e is DuplicateId || e is LogFull)
                    &&& (e is LogFull ==> final(self).audit_log().len() >= i64::MAX)
                    &&& (e matches StoreError::DuplicateId(d) ==> has_id(final(self).memories(), d@))
                },
            },
    {
        let ghost ins = crate::types::input_views(memories@);
        let ghost start = self.memories();
        let mut c: usize = 0;
        assert(self.memories().take(start.len() as int) =~= start);
        while c < memories.len()
            invariant
                self.wf(),
                c <= memories.len(),
                ins == crate::types::input_views(memories@),
                self.links() == old(self).links(),
                start == old(self).memories(),
                self.memories().len() == start.len() + c,
                added_from(start, self.memories(), ins),
            decreases memories.len() - c,
        {
            let input = memories[c].copy();
            let ghost before = self.memories();
            match self.add(input) {
                Ok(m) => {
                    assert(self.memories() == before.push(m@));
                    assert(self.memories().take(start.len() as int) =~= before.take(start.len() as int));
                    assert forall|j: int| 0 <= j < self.memories().len() - start.len() implies
                        is_made_from(#[trigger] self.memories()[start.len() + j], ins[j]) by {
                        if j < c {
                            assert(self.memories()[start.len() + j] == before[start.len() + j]);
                        }
                    }
                },
                Err(e) => {
                    return Err(e);
                },
            }
            c = c + 1;
        }
        Ok(c)
    }

    /// Stores `m` as it is, id and times included, and logs it as restored. Refused
    /// when its id is taken or the log is full.
    pub fn add_with_id(&mut self, m: &Memory) -> (r: Result<(), StoreError>)
        requires
            old(self).wf(),
        ensures
            final(self).wf(),
            final(self).links() == old(self).links(),
            match r {
                Ok(()) => {
                    &&& !has_id(old(self).memories(), m@.id)
                    &&& final(self).memories() == old(self).memories().push(m@)
                    &&& lookup(final(self).memories(), m@.id) == Some(m@)
                    &&& final(self).audit_log().len() == old(self).audit_log().len() + 1
                    &&& final(self).audit_log().drop_last() == old(self).audit_log()
                    &&& final(self).audit_log().last() == log_entry(old(self).audit_log().len() + 1,
                        "restore"@, m@.id, entry_details(m@.kind, m@.key), final(self).audit_log().last().created_at)
                },
                Err(e) => {
                    &&& final(self).memories() == old(self).memories()
                    &&& final(self).audit_log() == old(self).audit_log()
                    &&& (e is DuplicateId <==> has_id(old(self).memories(), m@.id))
                    &&& (e is DuplicateId || e is LogFull)
                    &&& (e is LogFull ==> old(self).audit_log().len() >= i64::MAX)
                },
            },
            !has_id(old(self).memories(), m@.id) && old(self).audit_log().len() < i64::MAX ==> r is Ok,
    {
        match self.index_of_id(m.id.as_str()) {
            Some(_) => {
                return Err(StoreError::DuplicateId(m.id.clone()));
            },
            None => {},
        }
        if self.audit.len() as u64 >= 0x7fff_ffff_ffff_ffffu64 {
            return Err(StoreError::LogFull);
        }
        let mut details = m.kind.to_string();
        append_str(&mut details, ": ");
        append_str(&mut details, m.key.as_str());
        let ghost before = self.memories();
        let c = m.copy();
        self.memories.push(c);
        assert(self.memories() =~= before.push(m@));
        assert forall|i: int, j: int| 0 <= i < j < self.memories().len() implies
            self.memories()[i].id != self.memories()[j].id by {
            if j == before.len() {
                assert(before[i].id == self.memories()[i].id);
            }
        }
        proof {
            law_read_after_write(before, m@, m@.id);
        }
        let now = now_micros();
        let ghost log_before = self.audit_log();
        let r = self.push_log("restore".to_owned(), m.id.clone(), details, now);
        match r {
            Ok(()) => {
                assert(self.audit_log().drop_last() =~= log_before);
                Ok(())
            },
            Err(e) => {
                proof {
                    assert(false);
                }
                Err(e)
            },
        }
    }

    /// Takes out the link pairs that touch any of `ids`.
    fn drop_links_touching(&mut self, ids: &[String])
        requires
            old(self).wf(),
        ensures
            final(self).wf(),
            final(self).memories() == old(self).memories(),
            final(self).audit_log() == old(self).audit_log(),
            final(self).links() == links_without_all(old(self).links(), strs(ids@)),
    {
        let ghost rm = strs(ids@);
        let ghost ls = self.links();
        let ghost g = |p: (Seq<char>, Seq<char>)| !rm.contains(p.0) && !rm.contains(p.1);
        let mut kept_links: Vec<(String, String)> = Vec::new();
        let mut j: usize = 0;
        assert(ls.take(0) =~= Seq::<(Seq<char>, Seq<char>)>::empty());
        while j < self.links.len()
            invariant
                j <= self.links.len(),
                ls == self.links(),
                rm == strs(ids@),
                g == (|p: (Seq<char>, Seq<char>)| !rm.contains(p.0) && !rm.contains(p.1)),
                kept_links@.map_values(|p: (String, String)| (p.0@, p.1@)) == ls.take(j as int).filter(g),
            decreases self.links.len() - j,
        {
            assert(ls.take(j + 1).drop_last() =~= ls.take(j as int));
            assert(ls.take(j + 1).last() == ls[j as int]);
            reveal_with_fuel(Seq::filter, 1);
            let a = &self.links[j].0;
            let b = &self.links[j].1;
            if !crate::text::contains_str(ids, a.as_str()) && !crate::text::contains_str(ids, b.as_str()) {
                let ghost before = kept_links@.map_values(|p: (String, String)| (p.0@, p.1@));
                kept_links.push((a.clone(), b.clone()));
                assert(kept_links@.map_values(|p: (String, String)| (p.0@, p.1@)) =~= before.push(ls[j as int]));
            }
            j = j + 1;
        }
        assert(ls.take(self.links.len() as int) =~= ls);
        self.links = kept_links;
    }

    /// Replaces every memory with `memories`, ids and times kept, as one step: the
    /// link pairs that touch a replaced memory go, and each new memory is logged as
    /// restored, in order. Refused, with nothing changed, when two of them share an id
    /// or the log has no room for them all. Returns how many were stored.
    pub fn replace_all(&mut self, memories: &[Memory]) -> (r: Result<usize, StoreError>)
        requires
            old(self).wf(),
        ensures
            final(self).wf(),
            match r {
                Ok(n) => {
                    let before = old(self).audit_log().len();
                    &&& n == memories.len()
                    &&& final(self).memories() == memory_views(memories@)
                    &&& final(self).links() == links_without_all(
                        old(self).links(),
                        old(self).memories().map_values(|m: MemoryView| m.id),
                    )
                    &&& final(self).audit_log().len() == before + memories.len()
                    &&& final(self).audit_log().take(before as int) == old(self).audit_log()
                    &&& forall|i: int| 0 <= i < memories.len() ==> #[trigger] final(self).audit_log()[before + i]
                        == log_entry((before + i + 1) as nat, "restore"@, memories@[i]@.id,
                        entry_details(memories@[i]@.kind, memories@[i]@.key),
                        final(self).audit_log()[before + i].created_at)
                },
                Err(e) => {
                    &&& final(self).memories() == old(self).memories()
                    &&& final(self).links() == old(self).links()
                    &&& final(self).audit_log() == old(self).audit_log()
                    &&& (e is DuplicateId <==> !ids_unique(memory_views(memories@)))
                    &&& (e is LogFull <==> ids_unique(memory_views(memories@))
                        && old(self).audit_log().len() + memories.len() >= i64::MAX)
                    &&& (e is DuplicateId || e is LogFull)
                },
            },
    {
        let ghost ms = memory_views(memories@);
        let mut i: usize = 0;
        while i < memories.len()
            invariant
                i <= memories.len(),
                ms == memory_views(memories@),
                ids_unique(ms.take(i as int)),
                self.wf(),
                self.memories() == old(self).memories(),
                self.links() == old(self).links(),
                self.audit_log() == old(self).audit_log(),
            decreases memories.len() - i,
        {
            let mut j: usize = 0;
            while j < i
                invariant
                    j <= i < memories.len(),
                    ms == memory_views(memories@),
                    forall|k: int| 0 <= k < j ==> ms[k].id != ms[i as int].id,
                    self.wf(),
                    self.memories() == old(self).memories(),
                    self.links() == old(self).links(),
                    self.audit_log() == old(self).audit_log(),
                decreases i - j,
            {
                if str_eq(memories[j].id.as_str(), memories[i].id.as_str()) {
                    assert(ms[j as int].id == ms[i as int].id);
                    return Err(StoreError::DuplicateId(memories[i].id.clone()));
                }
                j = j + 1;
            }
            assert forall|a: int, b: int| 0 <= a < b < ms.take(i + 1).len() implies
                (#[trigger] ms.take(i + 1)[a]).id != (#[trigger] ms.take(i + 1)[b]).id by {
                if b < i {
                    assert(ms.take(i as int)[a] == ms.take(i + 1)[a]);
                    assert(ms.take(i as int)[b] == ms.take(i + 1)[b]);
                }
            }
            i = i + 1;
        }
        assert(ms.take(memories.len() as int) =~= ms);
        if self.audit.len() as u128 + memories.len() as u128 >= 0x7fff_ffff_ffff_ffffu128 {
            return Err(StoreError::LogFull);
        }
        let ghost old_ms = self.memories();
        let ghost old_log = self.audit_log();
        let ghost before = old_log.len();
        let mut old_ids: Vec<String> = Vec::new();
        let mut k: usize = 0;
        while k < self.memories.len()
            invariant
                k <= self.memories.len(),
                old_ms == self.memories(),
                strs(old_ids@) == old_ms.take(k as int).map_values(|m: MemoryView| m.id),
            decreases self.memories.len() - k,
        {
            let ghost prev = strs(old_ids@);
            old_ids.push(self.memories[k].id.clone());
            assert(strs(old_ids@) =~= prev.push(old_ms[k as int].id));
            assert(old_ms.take(k + 1).map_values(|m: MemoryView| m.id) =~= old_ms.take(k as int).map_values(
                |m: MemoryView| m.id,
            ).push(old_ms[k as int].id));
            k = k + 1;
        }
        assert(old_ms.take(self.memories.len() as int) =~= old_ms);
        self.drop_links_touching(old_ids.as_slice());
        let ghost new_links = self.links();
        self.memories = Vec::new();
        assert(self.memories() =~= Seq::<MemoryView>::empty());
        let mut n: usize = 0;
        while n < memories.len()
            invariant
                n <= memories.len(),
                self.wf(),
                ms == memory_views(memories@),
                ids_unique(ms),
                self.memories() == ms.take(n as int),
                self.links() == new_links,
                before + memories.len() < i64::MAX,
                self.audit_log().len() == before + n,
                self.audit_log().take(before as int) == old_log,
                forall|t: int| 0 <= t < n ==> #[trigger] self.audit_log()[before + t] == log_entry(
                    (before + t + 1) as nat, "restore"@, ms[t].id, entry_details(ms[t].kind, ms[t].key),
                    self.audit_log()[before + t].created_at),
            decreases memories.len() - n,
        {
            assert(!has_id(self.memories(), ms[n as int].id)) by {
                if has_id(self.memories(), ms[n as int].id) {
                    let w = choose|w: int| 0 <= w < self.memories().len() && self.memories()[w].id == ms[n as int].id;
                    assert(ms[w] == self.memories()[w]);
                }
            }
            let ghost log_prev = self.audit_log();
            let res = self.add_with_id(&memories[n]);
            match res {
                Ok(()) => {},
                Err(_) => {
                    assert(false);
                },
            }
            assert(memories@[n as int]@ == ms[n as int]);
            assert(self.memories() =~= ms.take(n + 1));
            assert(self.audit_log().take(before as int) =~= old_log) by {
                assert(self.audit_log().drop_last() == log_prev);
                assert forall|t: int| 0 <= t < before implies self.audit_log()[t] == old_log[t] by {
                    assert(self.audit_log()[t] == log_prev[t]);
                    assert(log_prev.take(before as int)[t] == log_prev[t]);
                }
            }
            assert forall|t: int| 0 <= t < n + 1 implies #[trigger] self.audit_log()[before + t] == log_entry(
                (before + t + 1) as nat, "restore"@, ms[t].id, entry_details(ms[t].kind, ms[t].key),
                self.audit_log()[before + t].created_at) by {
                if t < n {
                    assert(self.audit_log()[before + t] == log_prev[before + t]);
                }
            }
            n = n + 1;
        }
        assert(ms.take(memories.len() as int) =~= ms);
        Ok(memories.len())
    }

    /// Deletes every memory whose key is one of `keys`, and the link pairs that touch
    /// them; the others stay in order. How many were deleted.
    pub fn delete_with_keys(&mut self, keys: &[String]) -> (r: usize)
        requires
            old(self).wf(),
        ensures
            final(self).wf(),
            final(self).audit_log() == old(self).audit_log(),
            final(self).memories() == without_keys(old(self).memories(), strs(keys@)),
            final(self).links() == links_without_all(old(self).links(), ids_with_keys(old(self).memories(), strs(keys@))),
            r == old(self).memories().len() - final(self).memories().len(),
    {
        let ghost ks = strs(keys@);
        let ghost s = self.memories();
        let ghost f = |m: MemoryView| !ks.contains(m.key);
        let ghost g = |m: MemoryView| ks.contains(m.key);
        let mut kept: Vec<Memory> = Vec::new();
        let mut gone: Vec<String> = Vec::new();
        let mut i: usize = 0;
        assert(s.take(0) =~= Seq::<MemoryView>::empty());
        while i < self.memories.len()
            invariant
                self.wf(),
                i <= self.memories.len(),
                s == self.memories(),
                ks == strs(keys@),
                f == (|m: MemoryView| !ks.contains(m.key)),
                g == (|m: MemoryView| ks.contains(m.key)),
                memory_views(kept@) == s.take(i as int).filter(f),
                strs(gone@) == s.take(i as int).filter(g).map_values(|m: MemoryView| m.id),
                kept.len() <= i,
                ids_unique(memory_views(kept@)),
                forall|a: int| 0 <= a < kept.len() ==> exists|j: int| 0 <= j < i && s[j] == #[trigger] memory_views(kept@)[a],
            decreases self.memories.len() - i,
        {
            assert(s.take(i + 1).drop_last() =~= s.take(i as int));
            assert(s.take(i + 1).last() == self.memories@[i as int]@);
            reveal_with_fuel(Seq::filter, 1);
            if !crate::text::contains_str(keys, self.memories[i].key.as_str()) {
                let ghost before = memory_views(kept@);
                let c = self.memories[i].copy();
                kept.push(c);
                assert(memory_views(kept@) =~= before.push(c@));
                assert forall|a: int, b: int| 0 <= a < b < memory_views(kept@).len() implies
                    memory_views(kept@)[a].id != memory_views(kept@)[b].id by {
                    if b == before.len() {
                        assert(memory_views(kept@)[a] == before[a]);
                        let j = choose|j: int| 0 <= j < i && s[j] == before[a];
                    } else {
                        assert(memory_views(kept@)[a] == before[a]);
                        assert(memory_views(kept@)[b] == before[b]);
                    }
                }
                assert forall|a: int| 0 <= a < kept.len() implies exists|j: int| 0 <= j < i + 1 && s[j] == #[trigger] memory_views(kept@)[a] by {
                    if a < before.len() {
                        assert(memory_views(kept@)[a] == before[a]);
                        let j = choose|j: int| 0 <= j < i && s[j] == before[a];
                    } else {
                        assert(s[i as int] == memory_views(kept@)[a]);
                    }
                }
                assert(s.take(i + 1).filter(g) =~= s.take(i as int).filter(g));
            } else {
                let ghost before = strs(gone@);
                gone.push(self.memories[i].id.clone());
                assert(strs(gone@) =~= before.push(s[i as int].id));
                assert(s.take(i + 1).filter(g) =~= s.take(i as int).filter(g).push(s[i as int]));
                assert(s.take(i + 1).filter(g).map_values(|m: MemoryView| m.id) =~= s.take(i as int).filter(g).map_values(
                    |m: MemoryView| m.id,
                ).push(s[i as int].id));
            }
            i = i + 1;
        }
        assert(s.take(self.memories.len() as int) =~= s);
        let removed = self.memories.len() - kept.len();
        self.memories = kept;
        self.drop_links_touching(gone.as_slice());
        removed
    }

    /// Deletes every memory named in `remove_ids` (and the link pairs that touch
    /// them), then overwrites the memory `keep.id`, if it is still stored, with the
    /// fields of `keep`, updated at `now`. How many memories were deleted.
    pub fn merge_duplicates_at(&mut self, keep: &Memory, remove_ids: &[String], now: i64) -> (r: Result<usize, StoreError>)
        requires
            old(self).wf(),
        ensures
            final(self).wf(),
            final(self).audit_log() == old(self).audit_log(),
            final(self).links() == links_without_all(old(self).links(), strs(remove_ids@)),
            ({
                let kept = without_ids(old(self).memories(), strs(remove_ids@));
                &&& r == Ok::<usize, StoreError>((old(self).memories().len() - kept.len()) as usize)
                &&& r == Ok::<usize, StoreError>(named_stored(old(self).memories(), strs(remove_ids@)).len() as usize)
                &&& has_id(kept, keep@.id) ==> final(self).memories() == kept.update(
                    id_index(kept, keep@.id),
                    overwritten(kept[id_index(kept, keep@.id)], keep@, now),
                )
                &&& !has_id(kept, keep@.id) ==> final(self).memories() == kept
            }),
    {
        let ghost rm = strs(remove_ids@);
        let ghost s = self.memories();
        let ghost f = |m: MemoryView| !rm.contains(m.id);
        let mut kept: Vec<Memory> = Vec::new();
        let mut i: usize = 0;
        assert(s.take(0) =~= Seq::<MemoryView>::empty());
        while i < self.memories.len()
            invariant
                self.wf(),
                i <= self.memories.len(),
                s == self.memories(),
                rm == strs(remove_ids@),
                f == (|m: MemoryView| !rm.contains(m.id)),
                memory_views(kept@) == s.take(i as int).filter(f),
                kept.len() <= i,
                ids_unique(memory_views(kept@)),
                forall|a: int| 0 <= a < kept.len() ==> exists|j: int| 0 <= j < i && s[j] == #[trigger] memory_views(kept@)[a],
            decreases self.memories.len() - i,
        {
            assert(s.take(i + 1).drop_last() =~= s.take(i as int));
            assert(s.take(i + 1).last() == self.memories@[i as int]@);
            reveal_with_fuel(Seq::filter, 1);
            if !crate::text::contains_str(remove_ids, self.memories[i].id.as_str()) {
                let ghost before = memory_views(kept@);
                let c = self.memories[i].copy();
                kept.push(c);
                assert(memory_views(kept@) =~= before.push(c@));
                assert forall|a: int, b: int| 0 <= a < b < memory_views(kept@).len() implies
                    memory_views(kept@)[a].id != memory_views(kept@)[b].id by {
                    if b == before.len() {
                        assert(memory_views(kept@)[a] == before[a]);
                        let j = choose|j: int| 0 <= j < i && s[j] == before[a];
                    } else {
                        assert(memory_views(kept@)[a] == before[a]);
                        assert(memory_views(kept@)[b] == before[b]);
                    }
                }
                assert forall|a: int| 0 <= a < kept.len() implies exists|j: int| 0 <= j < i + 1 && s[j] == #[trigger] memory_views(kept@)[a] by {
                    if a < before.len() {
                        assert(memory_views(kept@)[a] == before[a]);
                        let j = choose|j: int| 0 <= j < i && s[j] == before[a];
                    } else {
                        assert(s[i as int] == memory_views(kept@)[a]);
                    }
                }
            }
            i = i + 1;
        }
        assert(s.take(self.memories.len() as int) =~= s);
        let removed = self.memories.len() - kept.len();
        self.memories = kept;
        self.drop_links_touching(remove_ids);
        match self.index_of_id(keep.id.as_str()) {
            Some(k) => {
                let cur = &self.memories[k];
                let m = Memory {
                    id: cur.id.clone(),
                    kind: keep.kind,
                    key: keep.key.clone(),
                    content: keep.content.clone(),
                    tags: copy_strings(&keep.tags),
                    related_ids: copy_strings(&keep.related_ids),
                    created_at: cur.created_at,
                    updated_at: now,
                };
                assert(m@ == overwritten(self.memories()[k as int], keep@, now));
                self.set_memory(k, m);
            },
            None => {},
        }
        proof {
            law_merge_removes_named(s, rm);
        }
        Ok(removed)
    }

    /// Deletes the duplicates and overwrites the survivor as one step, updated now;
    /// how many memories were deleted.
    pub fn merge_duplicates(&mut self, keep: &Memory, remove_ids: &[String]) -> (r: Result<usize, StoreError>)
        requires
            old(self).wf(),
        ensures
            final(self).wf(),
            final(self).audit_log() == old(self).audit_log(),
            final(self).links() == links_without_all(old(self).links(), strs(remove_ids@)),
            ({
                let kept = without_ids(old(self).memories(), strs(remove_ids@));
                &&& r == Ok::<usize, StoreError>((old(self).memories().len() - kept.len()) as usize)
                &&& r == Ok::<usize, StoreError>(named_stored(old(self).memories(), strs(remove_ids@)).len() as usize)
                &&& has_id(kept, keep@.id) ==> final(self).memories() == kept.update(
                    id_index(kept, keep@.id),
                    overwritten(kept[id_index(kept, keep@.id)], keep@,
                        final(self).memories()[id_index(kept, keep@.id)].updated_at),
                )
                &&& !has_id(kept, keep@.id) ==> final(self).memories() == kept
            }),
    {
        let now = now_micros();
        self.merge_duplicates_at(keep, remove_ids, now)
    }

    /// The place of memory `i` when all are listed most recent first.
    fn rank_of(&self, i: usize) -> (r: usize)
        requires
            i < self.memories().len(),
        ensures
            r == rank(self.memories(), i as int),
    {
        let t = self.memories[i].updated_at;
        let mut c: usize = 0;
        let mut j: usize = 0;
        while j < self.memories.len()
            invariant
                i < self.memories.len(),
                t == self.memories()[i as int].updated_at,
                j <= self.memories.len(),
                c <= j,
                c == rank_below(self.memories(), i as int, j as int),
            decreases self.memories.len() - j,
        {
            let u = self.memories[j].updated_at;
            if u > t || (u == t && j < i) {
                c = c + 1;
            }
            j = j + 1;
        }
        c
    }

    /// The places of all memories when listed most recent first.
    fn ranks(&self) -> (r: Vec<usize>)
        ensures
            r.len() == self.memories().len(),
            forall|i: int| 0 <= i < r.len() ==> r@[i] == rank(self.memories(), i),
    {
        let mut r: Vec<usize> = Vec::new();
        let mut i: usize = 0;
        while i < self.memories.len()
            invariant
                i <= self.memories.len(),
                r.len() == i,
                forall|k: int| 0 <= k < i ==> r@[k] == rank(self.memories(), k),
            decreases self.memories.len() - i,
        {
            let k = self.rank_of(i);
            r.push(k);
            i = i + 1;
        }
        r
    }

    /// Rewrites the tags of each memory among the ten thousand most recent that holds
    /// `tag`: `rename` chooses between renaming it to `new_tag` and removing it.
    fn retag_at(&mut self, tag: &str, new_tag: &str, rename: bool, now: i64) -> (r: usize)
        requires
            old(self).wf(),
        ensures
            final(self).wf(),
            final(self).links() == old(self).links(),
            final(self).audit_log() == old(self).audit_log(),
            r == retag_count(old(self).memories(), tag@, old(self).memories().len() as int),
            rename ==> final(self).memories() == retagged(old(self).memories(), tag@,
                |m: MemoryView| with_tags(m, renamed_tags(m.tags, tag@, new_tag@), now)),
            !rename ==> final(self).memories() == retagged(old(self).memories(), tag@,
                |m: MemoryView| with_tags(m, m.tags.filter(other_than(tag@)), now)),
    {
        let ghost ms = self.memories();
        let ghost f = if rename {
            |m: MemoryView| with_tags(m, renamed_tags(m.tags, tag@, new_tag@), now)
        } else {
            |m: MemoryView| with_tags(m, m.tags.filter(other_than(tag@)), now)
        };
        let ranks = self.ranks();
        let n = self.memories.len();
        let mut c: usize = 0;
        let mut i: usize = 0;
        assert(self.memories() =~= Seq::new(n as nat, |j: int| if j < 0 && reached(ms, j) && ms[j].tags.contains(tag@) { f(ms[j]) } else { ms[j] }));
        while i < n
            invariant
                self.wf(),
                n == ms.len(),
                i <= n,
                self.memories@.len() == n,
                self.links() == old(self).links(),
                self.audit_log() == old(self).audit_log(),
                ms == old(self).memories(),
                ranks.len() == n,
                forall|k: int| 0 <= k < n ==> ranks@[k] == rank(ms, k),
                f == (if rename {
                    |m: MemoryView| with_tags(m, renamed_tags(m.tags, tag@, new_tag@), now)
                } else {
                    |m: MemoryView| with_tags(m, m.tags.filter(other_than(tag@)), now)
                }),
                self.memories() == Seq::new(n as nat, |j: int| if j < i && reached(ms, j) && ms[j].tags.contains(tag@) { f(ms[j]) } else { ms[j] }),
                c == retag_count(ms, tag@, i as int),
                c <= i,
            decreases n - i,
        {
            assert(self.memories()[i as int] == ms[i as int]);
            if ranks[i] < 10000 && crate::text::contains_str(self.memories[i].tags.as_slice(), tag) {
                let cur = &self.memories[i];
                let mut t = crate::text::strings_without(cur.tags.as_slice(), tag);
                if rename && !crate::text::contains_str(t.as_slice(), new_tag) {
                    t.push(new_tag.to_owned());
                }
                let m = Memory {
                    id: cur.id.clone(),
                    kind: cur.kind,
                    key: cur.key.clone(),
                    content: cur.content.clone(),
                    tags: t,
                    related_ids: copy_strings(&cur.related_ids),
                    created_at: cur.created_at,
                    updated_at: now,
                };
                proof {
                    if rename {
                        assert(strs(m.tags@) =~= renamed_tags(ms[i as int].tags, tag@, new_tag@));
                    }
                }
                assert(m@ == f(ms[i as int]));
                let ghost before = self.memories();
                self.set_memory(i, m);
                c = c + 1;
                assert(self.memories() =~= Seq::new(n as nat, |j: int| if j < i + 1 && reached(ms, j) && ms[j].tags.contains(tag@) { f(ms[j]) } else { ms[j] }));
            } else {
                assert(self.memories() =~= Seq::new(n as nat, |j: int| if j < i + 1 && reached(ms, j) && ms[j].tags.contains(tag@) { f(ms[j]) } else { ms[j] }));
            }
            i = i + 1;
        }
        assert(self.memories() =~= retagged(ms, tag@, f));
        c
    }

    /// Renames the tag `old_tag` to `new_tag` on the ten thousand most recent memories,
    /// updated at `now`; how many memories held it.
    pub fn rename_tag_at(&mut self, old_tag: &str, new_tag: &str, now: i64) -> (r: Result<usize, StoreError>)
        requires
            old(self).wf(),
        ensures
            final(self).wf(),
            final(self).links() == old(self).links(),
            final(self).audit_log() == old(self).audit_log(),
            r == Ok::<usize, StoreError>(retag_count(old(self).memories(), old_tag@, old(self).memories().len() as int) as usize),
            final(self).memories() == retagged(old(self).memories(), old_tag@,
                |m: MemoryView| with_tags(m, renamed_tags(m.tags, old_tag@, new_tag@), now)),
    {
        Ok(self.retag_at(old_tag, new_tag, true, now))
    }

    /// Renames a tag on the ten thousand most recent memories, updated now; how many held it.
    pub fn rename_tag(&mut self, old_tag: &str, new_tag: &str) -> (r: Result<usize, StoreError>)
        requires
            old(self).wf(),
        ensures
            final(self).wf(),
            final(self).links() == old(self).links(),
            final(self).audit_log() == old(self).audit_log(),
            r == Ok::<usize, StoreError>(retag_count(old(self).memories(), old_tag@, old(self).memories().len() as int) as usize),
            retag_shape(old(self).memories(), final(self).memories(), old_tag@,
                |t: Seq<Seq<char>>| renamed_tags(t, old_tag@, new_tag@)),
    {
        let now = now_micros();
        let r = self.rename_tag_at(old_tag, new_tag, now);
        assert(retag_shape(old(self).memories(), self.memories(), old_tag@,
            |t: Seq<Seq<char>>| renamed_tags(t, old_tag@, new_tag@)));
        r
    }

    /// Removes the tag `tag` from the ten thousand most recent memories, updated at
    /// `now`; how many memories held it.
    pub fn delete_tag_at(&mut self, tag: &str, now: i64) -> (r: Result<usize, StoreError>)
        requires
            old(self).wf(),
        ensures
            final(self).wf(),
            final(self).links() == old(self).links(),
            final(self).audit_log() == old(self).audit_log(),
            r == Ok::<usize, StoreError>(retag_count(old(self).memories(), tag@, old(self).memories().len() as int) as usize),
            final(self).memories() == retagged(old(self).memories(), tag@,
                |m: MemoryView| with_tags(m, m.tags.filter(other_than(tag@)), now)),
    {
        Ok(self.retag_at(tag, "", false, now))
    }

    /// Removes a tag from the ten thousand most recent memories, updated now; how many held it.
    pub fn delete_tag(&mut self, tag: &str) -> (r: Result<usize, StoreError>)
        requires
            old(self).wf(),
        ensures
            final(self).wf(),
            final(self).links() == old(self).links(),
            final(self).audit_log() == old(self).audit_log(),
            r == Ok::<usize, StoreError>(retag_count(old(self).memories(), tag@, old(self).memories().len() as int) as usize),
            retag_shape(old(self).memories(), final(self).memories(), tag@,
                |t: Seq<Seq<char>>| t.filter(other_than(tag@))),
    {
        let now = now_micros();
        let r = self.delete_tag_at(tag, now);
        assert(retag_shape(old(self).memories(), self.memories(), tag@,
            |t: Seq<Seq<char>>| t.filter(other_than(tag@))));
        r
    }

    /// Adds `tag` to the memory `id` unless it holds it already (then nothing changes);
    /// a changed memory is updated at `now`. Whether the memory is stored.
    pub fn add_tag_at(&mut self, id: &str, tag: &str, now: i64) -> (r: Result<bool, StoreError>)
        requires
            old(self).wf(),
        ensures
            final(self).wf(),
            final(self).links() == old(self).links(),
            final(self).audit_log() == old(self).audit_log(),
            r == Ok::<bool, StoreError>(has_id(old(self).memories(), id@)),
            has_id(old(self).memories(), id@) ==> final(self).memories() == old(self).memories().update(
                id_index(old(self).memories(), id@),
                tag_added(old(self).memories()[id_index(old(self).memories(), id@)], tag@, now),
            ),
            !has_id(old(self).memories(), id@) ==> final(self).memories() == old(self).memories(),
    {
        match self.index_of_id(id) {
            Some(i) => {
                if !crate::text::contains_str(self.memories[i].tags.as_slice(), tag) {
                    let mut m = self.memories[i].copy();
                    let ghost mv = m@;
                    m.tags.push(tag.to_owned());
                    m.updated_at = now;
                    assert(strs(m.tags@) =~= mv.tags.push(tag@));
                    assert(m@ == with_tags(mv, mv.tags.push(tag@), now));
                    self.set_memory(i, m);
                }
                Ok(true)
            },
            None => Ok(false),
        }
    }

    /// Adds a tag to a memory (updated now when it changes); whether the memory is stored.
    pub fn add_tag(&mut self, id: &str, tag: &str) -> (r: Result<bool, StoreError>)
        requires
            old(self).wf(),
        ensures
            final(self).wf(),
            final(self).links() == old(self).links(),
            final(self).audit_log() == old(self).audit_log(),
            r == Ok::<bool, StoreError>(has_id(old(self).memories(), id@)),
            has_id(old(self).memories(), id@) ==> final(self).memories() == old(self).memories().update(
                id_index(old(self).memories(), id@),
                tag_added(old(self).memories()[id_index(old(self).memories(), id@)], tag@,
                    final(self).memories()[id_index(old(self).memories(), id@)].updated_at),
            ),
            !has_id(old(self).memories(), id@) ==> final(self).memories() == old(self).memories(),
    {
        let now = now_micros();
        self.add_tag_at(id, tag, now)
    }

    /// Pins a memory: adds the tag `pinned` (updated now when it changes); whether the
    /// memory is stored.
    pub fn pin(&mut self, id: &str) -> (r: Result<bool, StoreError>)
        requires
            old(self).wf(),
        ensures
            final(self).wf(),
            final(self).links() == old(self).links(),
            final(self).audit_log() == old(self).audit_log(),
            r == Ok::<bool, StoreError>(has_id(old(self).memories(), id@)),
            has_id(old(self).memories(), id@) ==> final(self).memories() == old(self).memories().update(
                id_index(old(self).memories(), id@),
                tag_added(old(self).memories()[id_index(old(self).memories(), id@)], "pinned"@,
                    final(self).memories()[id_index(old(self).memories(), id@)].updated_at),
            ),
            !has_id(old(self).memories(), id@) ==> final(self).memories() == old(self).memories(),
    {
        self.add_tag(id, "pinned")
    }

    /// Unpins a memory: removes the tag `pinned`, updated at `now` even when it was not
    /// pinned; whether the memory is stored.
    pub fn unpin_at(&mut self, id: &str, now: i64) -> (r: Result<bool, StoreError>)
        requires
            old(self).wf(),
        ensures
            final(self).wf(),
            final(self).links() == old(self).links(),
            final(self).audit_log() == old(self).audit_log(),
            r == Ok::<bool, StoreError>(has_id(old(self).memories(), id@)),
            has_id(old(self).memories(), id@) ==> {
                let i = id_index(old(self).memories(), id@);
                let m = old(self).memories()[i];
                final(self).memories() == old(self).memories().update(
                    i,
                    with_tags(m, m.tags.filter(other_than("pinned"@)), now),
                )
            },
            !has_id(old(self).memories(), id@) ==> final(self).memories() == old(self).memories(),
    {
        match self.index_of_id(id) {
            Some(i) => {
                let mut m = self.memories[i].copy();
                let ghost mv = m@;
                m.tags = crate::text::strings_without(m.tags.as_slice(), "pinned");
                m.updated_at = now;
                assert(m@ == with_tags(mv, mv.tags.filter(other_than("pinned"@)), now));
                self.set_memory(i, m);
                Ok(true)
            },
            None => Ok(false),
        }
    }

    /// Unpins a memory, updated now; whether the memory is stored.
    pub fn unpin(&mut self, id: &str) -> (r: Result<bool, StoreError>)
        requires
            old(self).wf(),
        ensures
            final(self).wf(),
            final(self).links() == old(self).links(),
            final(self).audit_log() == old(self).audit_log(),
            r == Ok::<bool, StoreError>(has_id(old(self).memories(), id@)),
            has_id(old(self).memories(), id@) ==> {
                let i = id_index(old(self).memories(), id@);
                let m = old(self).memories()[i];
                final(self).memories() == old(self).memories().update(
                    i,
                    with_tags(m, m.tags.filter(other_than("pinned"@)), final(self).memories()[i].updated_at),
                )
            },
            !has_id(old(self).memories(), id@) ==> final(self).memories() == old(self).memories(),
    {
        let now = now_micros();
        self.unpin_at(id, now)
    }

    /// Deletes each id in turn; how many were stored.
    pub fn batch_delete(&mut self, ids: &[String]) -> (r: Result<usize, StoreError>)
        requires
            old(self).wf(),
        ensures
            final(self).wf(),
            final(self).audit_log() == old(self).audit_log(),
            ({
                let e = delete_each(old(self).memories(), old(self).links(), strs(ids@));
                &&& final(self).memories() == e.0
                &&& final(self).links() == e.1
                &&& r == Ok::<usize, StoreError>(e.2 as usize)
            }),
    {
        let ghost ms = self.memories();
        let ghost ls = self.links();
        let mut d: usize = 0;
        let mut k: usize = 0;
        assert(strs(ids@).take(0) =~= Seq::<Seq<char>>::empty());
        while k < ids.len()
            invariant
                self.wf(),
                k <= ids.len(),
                ms == old(self).memories(),
                ls == old(self).links(),
                self.audit_log() == old(self).audit_log(),
                d <= k,
                ({
                    let e = delete_each(ms, ls, strs(ids@).take(k as int));
                    self.memories() == e.0 && self.links() == e.1 && d == e.2
                }),
            decreases ids.len() - k,
        {
            assert(strs(ids@).take(k + 1).drop_last() =~= strs(ids@).take(k as int));
            assert(strs(ids@).take(k + 1).last() == ids@[k as int]@);
            let ok = self.delete(ids[k].as_str());
            if let Ok(true) = ok {
                d = d + 1;
            }
            k = k + 1;
        }
        assert(strs(ids@).take(ids.len() as int) =~= strs(ids@));
        Ok(d)
    }

    /// Adds `tag` to each id in turn, at `now`; how many ids were stored.
    pub fn batch_add_tag_at(&mut self, ids: &[String], tag: &str, now: i64) -> (r: Result<usize, StoreError>)
        requires
            old(self).wf(),
        ensures
            final(self).wf(),
            final(self).links() == old(self).links(),
            final(self).audit_log() == old(self).audit_log(),
            ({
                let e = tag_each(old(self).memories(), strs(ids@), tag@, now);
                final(self).memories() == e.0 && r == Ok::<usize, StoreError>(e.1 as usize)
            }),
    {
        let ghost ms = self.memories();
        let mut u: usize = 0;
        let mut k: usize = 0;
        assert(strs(ids@).take(0) =~= Seq::<Seq<char>>::empty());
        while k < ids.len()
            invariant
                self.wf(),
                k <= ids.len(),
                ms == old(self).memories(),
                self.links() == old(self).links(),
                self.audit_log() == old(self).audit_log(),
                u <= k,
                ({
                    let e = tag_each(ms, strs(ids@).take(k as int), tag@, now);
                    self.memories() == e.0 && u == e.1
                }),
            decreases ids.len() - k,
        {
            assert(strs(ids@).take(k + 1).drop_last() =~= strs(ids@).take(k as int));
            assert(strs(ids@).take(k + 1).last() == ids@[k as int]@);
            let ok = self.add_tag_at(ids[k].as_str(), tag, now);
            if let Ok(true) = ok {
                u = u + 1;
            }
            k = k + 1;
        }
        assert(strs(ids@).take(ids.len() as int) =~= strs(ids@));
        Ok(u)
    }

    /// Adds a tag to each id in turn, at one time taken now; how many ids were stored.
    pub fn batch_add_tag(&mut self, ids: &[String], tag: &str) -> (r: Result<usize, StoreError>)
        requires
            old(self).wf(),
        ensures
            final(self).wf(),
            final(self).links() == old(self).links(),
            final(self).audit_log() == old(self).audit_log(),
            exists|now: i64| #![trigger tag_each(old(self).memories(), strs(ids@), tag@, now)] {
                let e = tag_each(old(self).memories(), strs(ids@), tag@, now);
                final(self).memories() == e.0 && r == Ok::<usize, StoreError>(e.1 as usize)
            },
    {
        let now = now_micros();
        let r = self.batch_add_tag_at(ids, tag, now);
        assert(tag_each(old(self).memories(), strs(ids@), tag@, now).0 == self.memories());
        r
    }

    /// Sets the kind of each id in turn, updated at `now`; how many ids were stored.
    pub fn batch_update_kind_at(&mut self, ids: &[String], kind: &MemoryKind, now: i64) -> (r: Result<usize, StoreError>)
        requires
            old(self).wf(),
        ensures
            final(self).wf(),
            final(self).links() == old(self).links(),
            final(self).audit_log() == old(self).audit_log(),
            ({
                let e = kind_each(old(self).memories(), strs(ids@), *kind, now);
                final(self).memories() == e.0 && r == Ok::<usize, StoreError>(e.1 as usize)
            }),
    {
        let ghost ms = self.memories();
        let mut u: usize = 0;
        let mut k: usize = 0;
        assert(strs(ids@).take(0) =~= Seq::<Seq<char>>::empty());
        while k < ids.len()
            invariant
                self.wf(),
                k <= ids.len(),
                ms == old(self).memories(),
                self.links() == old(self).links(),
                self.audit_log() == old(self).audit_log(),
                u <= k,
                ({
                    let e = kind_each(ms, strs(ids@).take(k as int), *kind, now);
                    self.memories() == e.0 && u == e.1
                }),
            decreases ids.len() - k,
        {
            assert(strs(ids@).take(k + 1).drop_last() =~= strs(ids@).take(k as int));
            assert(strs(ids@).take(k + 1).last() == ids@[k as int]@);
            match self.index_of_id(ids[k].as_str()) {
                Some(i) => {
                    let mut m = self.memories[i].copy();
                    let ghost mv = m@;
                    m.kind = *kind;
                    m.updated_at = now;
                    assert(m@ == with_kind(mv, *kind, now));
                    self.set_memory(i, m);
                    u = u + 1;
                },
                None => {},
            }
            k = k + 1;
        }
        assert(strs(ids@).take(ids.len() as int) =~= strs(ids@));
        Ok(u)
    }

    /// Sets the kind of each id in turn, at one time taken now; how many ids were stored.
    pub fn batch_update_kind(&mut self, ids: &[String], kind: &MemoryKind) -> (r: Result<usize, StoreError>)
        requires
            old(self).wf(),
        ensures
            final(self).wf(),
            final(self).links() == old(self).links(),
            final(self).audit_log() == old(self).audit_log(),
            exists|now: i64| #![trigger kind_each(old(self).memories(), strs(ids@), *kind, now)] {
                let e = kind_each(old(self).memories(), strs(ids@), *kind, now);
                final(self).memories() == e.0 && r == Ok::<usize, StoreError>(e.1 as usize)
            },
    {
        let now = now_micros();
        let r = self.batch_update_kind_at(ids, kind, now);
        assert(kind_each(old(self).memories(), strs(ids@), *kind, now).0 == self.memories());
        r
    }

    /// The pinned memories among the ten thousand most recent, most recent first.
    pub fn list_pinned(&self) -> (r: Result<Vec<Memory>, StoreError>)
        ensures
            r matches Ok(v) && memory_views(v@) == first_n(recent_first(self.memories()), 10000).filter(
                |m: MemoryView| m.tags.contains("pinned"@),
            ),
    {
        let all = self.recent(10000);
        let ghost s = memory_views(all@);
        let ghost f = |m: MemoryView| m.tags.contains("pinned"@);
        let mut r: Vec<Memory> = Vec::new();
        let mut i: usize = 0;
        assert(s.take(0) =~= Seq::<MemoryView>::empty());
        while i < all.len()
            invariant
                i <= all.len(),
                s == memory_views(all@),
                f == (|m: MemoryView| m.tags.contains("pinned"@)),
                memory_views(r@) == s.take(i as int).filter(f),
            decreases all.len() - i,
        {
            assert(s.take(i + 1).drop_last() =~= s.take(i as int));
            assert(s.take(i + 1).last() == all@[i as int]@);
            reveal_with_fuel(Seq::filter, 1);
            if crate::text::contains_str(all[i].tags.as_slice(), "pinned") {
                let ghost before = memory_views(r@);
                let c = all[i].copy();
                r.push(c);
                assert(memory_views(r@) =~= before.push(c@));
            }
            i = i + 1;
        }
        assert(s.take(all.len() as int) =~= s);
        Ok(r)
    }

    /// Up to `limit` memories updated inside the bounds, most recent first.
    pub fn search_by_date(&self, after: Option<i64>, before: Option<i64>, limit: usize) -> (r: Result<Vec<Memory>, StoreError>)
        ensures
            r matches Ok(v) && memory_views(v@) == first_n(
                recent_first(self.memories().filter(|m: MemoryView| in_period(m, after, before))),
                limit as int,
            ),
    {
        let ghost s = self.memories();
        let ghost f = |m: MemoryView| in_period(m, after, before);
        let mut sel: Vec<Memory> = Vec::new();
        let mut i: usize = 0;
        assert(s.take(0) =~= Seq::<MemoryView>::empty());
        while i < self.memories.len()
            invariant
                i <= self.memories.len(),
                s == self.memories(),
                f == (|m: MemoryView| in_period(m, after, before)),
                memory_views(sel@) == s.take(i as int).filter(f),
            decreases self.memories.len() - i,
        {
            assert(s.take(i + 1).drop_last() =~= s.take(i as int));
            assert(s.take(i + 1).last() == self.memories@[i as int]@);
            reveal_with_fuel(Seq::filter, 1);
            let t = self.memories[i].updated_at;
            let ok_after = match after {
                Some(a) => t >= a,
                None => true,
            };
            let ok_before = match before {
                Some(b) => t <= b,
                None => true,
            };
            if ok_after && ok_before {
                let ghost prev = memory_views(sel@);
                let c = self.memories[i].copy();
                sel.push(c);
                assert(memory_views(sel@) =~= prev.push(c@));
            }
            i = i + 1;
        }
        assert(s.take(self.memories.len() as int) =~= s);
        let mut v = sort_recent(sel.as_slice());
        proof {
            lemma_recent_first_len(memory_views(sel@));
        }
        let ghost sorted = memory_views(v@);
        v.truncate(limit);
        assert(memory_views(v@) =~= first_n(sorted, limit as int));
        Ok(v)
    }

    /// Up to `limit` memories, most recently updated first, whose key, content or
    /// tag list (in its JSON form) contains the lower-cased query as a `LIKE`
    /// pattern: `%` in the query stands for any run of characters, `_` for any one,
    /// and letters match without regard to ASCII case.
    pub fn search(&self, query: &str, limit: usize) -> (r: Result<Vec<Memory>, StoreError>)
        ensures
            r matches Ok(v) && memory_views(v@) == first_n(
                recent_first(self.memories().filter(search_hits(crate::text::lower_text(query@)))),
                limit as int,
            ),
    {
        let q = crate::text::to_lower_text(query);
        let qc = chars_of(q.as_str());
        let ghost s = self.memories();
        let ghost f = search_hits(crate::text::lower_text(query@));
        let mut sel: Vec<Memory> = Vec::new();
        let mut i: usize = 0;
        assert(s.take(0) =~= Seq::<MemoryView>::empty());
        while i < self.memories.len()
            invariant
                i <= self.memories.len(),
                s == self.memories(),
                qc@ == crate::text::lower_text(query@),
                f == search_hits(crate::text::lower_text(query@)),
                memory_views(sel@) == s.take(i as int).filter(f),
            decreases self.memories.len() - i,
        {
            assert(s.take(i + 1).drop_last() =~= s.take(i as int));
            assert(s.take(i + 1).last() == self.memories@[i as int]@);
            reveal_with_fuel(Seq::filter, 1);
            let m = &self.memories[i];
            let hit = like_contains_chars(chars_of(m.key.as_str()).as_slice(), qc.as_slice())
                || like_contains_chars(chars_of(m.content.as_str()).as_slice(), qc.as_slice())
                || like_contains_chars(json_list_chars(&m.tags).as_slice(), qc.as_slice());
            assert(hit == search_hit(m@, qc@));
            if hit {
                let ghost prev = memory_views(sel@);
                let c = m.copy();
                sel.push(c);
                assert(memory_views(sel@) =~= prev.push(c@));
            }
            i = i + 1;
        }
        assert(s.take(self.memories.len() as int) =~= s);
        let mut v = sort_recent(sel.as_slice());
        proof {
            lemma_recent_first_len(memory_views(sel@));
        }
        let ghost sorted = memory_views(v@);
        v.truncate(limit);
        assert(memory_views(v@) =~= first_n(sorted, limit as int));
        Ok(v)
    }

    /// Up to `limit` of the ten thousand most recent memories that match every facet
    /// given, most recent first.
    pub fn faceted_search(
        &self,
        query: Option<&str>,
        kind: Option<&MemoryKind>,
        tags: &[String],
        pinned: Option<bool>,
        limit: usize,
    ) -> (r: Result<Vec<Memory>, StoreError>)
        ensures
            r matches Ok(v) && memory_views(v@) == first_n(
                first_n(recent_first(self.memories()), 10000).filter(
                    |m: MemoryView| facet_match(
                        m,
                        match query { Some(q) => Some(q@), None => None },
                        match kind { Some(k) => Some(*k), None => None },
                        strs(tags@),
                        pinned,
                    ),
                ),
                limit as int,
            ),
            r matches Ok(v) && forall|i: int| 0 <= i < v.len() ==> {
                &&& (kind matches Some(k) ==> (#[trigger] v@[i]).kind == *k)
                &&& (pinned == Some(true) ==> v@[i]@.tags.contains("pinned"@))
                &&& (tags.len() > 0 ==> exists|j: int| 0 <= j < tags.len() && v@[i]@.tags.contains(#[trigger] tags@[j]@))
                &&& (query matches Some(q) ==> crate::text::has_sub(crate::text::lower_text(v@[i]@.key), crate::text::lower_text(q@))
                    || crate::text::has_sub(crate::text::lower_text(v@[i]@.content), crate::text::lower_text(q@)))
            },
    {
        let ghost qv: Option<Seq<char>> = match query { Some(q) => Some(q@), None => None };
        let ghost kv: Option<MemoryKind> = match kind { Some(k) => Some(*k), None => None };
        let ghost tv = strs(tags@);
        let all = self.recent(10000);
        let ghost s = memory_views(all@);
        let ghost f = |m: MemoryView| facet_match(m, qv, kv, tv, pinned);
        let ql = match query {
            Some(q) => Some(crate::text::to_lower_text(q)),
            None => None,
        };
        let mut r: Vec<Memory> = Vec::new();
        let mut i: usize = 0;
        assert(s.take(0) =~= Seq::<MemoryView>::empty());
        while i < all.len()
            invariant
                i <= all.len(),
                s == memory_views(all@),
                tv == strs(tags@),
                qv == (match query { Some(q) => Some(q@), None => None::<Seq<char>> }),
                kv == (match kind { Some(k) => Some(*k), None => None::<MemoryKind> }),
                ql matches Some(l) ==> query matches Some(q) && l@ == crate::text::lower_text(q@),
                query is Some ==> ql is Some,
                f == (|m: MemoryView| facet_match(m, qv, kv, tv, pinned)),
                memory_views(r@) == s.take(i as int).filter(f),
            decreases all.len() - i,
        {
            assert(s.take(i + 1).drop_last() =~= s.take(i as int));
            assert(s.take(i + 1).last() == all@[i as int]@);
            reveal_with_fuel(Seq::filter, 1);
            let m = &all[i];
            let ok_kind = match kind {
                Some(k) => m.kind == *k,
                None => true,
            };
            let mut ok_tags = tags.len() == 0;
            let mut t: usize = 0;
            while t < tags.len() && !ok_tags
                invariant
                    t <= tags.len(),
                    tv == strs(tags@),
                    ok_tags <==> (tags.len() == 0 || exists|x: int| 0 <= x < t && m@.tags.contains(#[trigger] tv[x])),
                decreases tags.len() - t,
            {
                if crate::text::contains_str(m.tags.as_slice(), tags[t].as_str()) {
                    assert(tv[t as int] == tags@[t as int]@);
                    ok_tags = true;
                }
                t = t + 1;
            }
            assert(ok_tags <==> (tags.len() > 0 ==> exists|x: int| 0 <= x < tv.len() && m@.tags.contains(#[trigger] tv[x])));
            let ok_pin = match pinned {
                Some(true) => crate::text::contains_str(m.tags.as_slice(), "pinned"),
                _ => true,
            };
            let ok_query = match &ql {
                Some(l) => {
                    let kl = crate::text::to_lower_text(m.key.as_str());
                    let cl = crate::text::to_lower_text(m.content.as_str());
                    crate::text::str_contains(kl.as_str(), l.as_str()) || crate::text::str_contains(cl.as_str(), l.as_str())
                },
                None => true,
            };
            if ok_kind && ok_tags && ok_pin && ok_query {
                let ghost prev = memory_views(r@);
                let c = m.copy();
                r.push(c);
                assert(memory_views(r@) =~= prev.push(c@));
            } else {
                assert(!f(m@));
            }
            i = i + 1;
        }
        assert(s.take(all.len() as int) =~= s);
        assert(f =~= (|m: MemoryView| facet_match(
            m,
            match query { Some(q) => Some(q@), None => None },
            match kind { Some(k) => Some(*k), None => None },
            strs(tags@),
            pinned,
        )));
        let ghost filtered = memory_views(r@);
        r.truncate(limit);
        assert(memory_views(r@) =~= first_n(filtered, limit as int));
        proof {
            law_facets_hold(self.memories(), qv, kv, tv, pinned, limit as int);
            assert forall|i: int| 0 <= i < r.len() implies {
                &&& (kind matches Some(k) ==> (#[trigger] r@[i]).kind == *k)
                &&& (pinned == Some(true) ==> r@[i]@.tags.contains("pinned"@))
                &&& (tags.len() > 0 ==> exists|j: int| 0 <= j < tags.len() && r@[i]@.tags.contains(#[trigger] tags@[j]@))
                &&& (query matches Some(q) ==> crate::text::has_sub(crate::text::lower_text(r@[i]@.key), crate::text::lower_text(q@))
                    || crate::text::has_sub(crate::text::lower_text(r@[i]@.content), crate::text::lower_text(q@)))
            } by {
                assert(memory_views(r@)[i] == r@[i]@);
                if tags.len() > 0 {
                    let j = choose|j: int| 0 <= j < tv.len() && r@[i]@.tags.contains(#[trigger] tv[j]);
                    assert(tv[j] == tags@[j]@);
                }
            }
        }
        Ok(r)
    }

    /// A store holding the given rows, as read back from where they were kept; refused
    /// when two memories share an id or the log entries are not numbered one, two, ...
    pub fn from_parts(memories: Vec<Memory>, links: Vec<(String, String)>, audit: Vec<AuditEntry>) -> (r: Result<Self, StoreError>)
        ensures
            match r {
                Ok(s) => {
                    &&& s.wf()
                    &&& s.memories() == memory_views(memories@)
                    &&& s.links() == links@.map_values(|p: (String, String)| (p.0@, p.1@))
                    &&& s.audit_log() == audit@.map_values(|e: AuditEntry| e@)
                },
                Err(e) => e is InvalidRows && !(ids_unique(memory_views(memories@))
                    && forall|i: int| 0 <= i < audit@.len() ==> #[trigger] audit@[i].id == i + 1),
            },
    {
        let ghost ms = memory_views(memories@);
        let mut i: usize = 0;
        while i < memories.len()
            invariant
                i <= memories.len(),
                ms == memory_views(memories@),
                forall|a: int, b: int| 0 <= a < b < ms.len() && a < i ==> ms[a].id != ms[b].id,
            decreases memories.len() - i,
        {
            let mut j: usize = i + 1;
            while j < memories.len()
                invariant
                    i < j <= memories.len(),
                    ms == memory_views(memories@),
                    forall|a: int, b: int| 0 <= a < b < ms.len() && a < i ==> ms[a].id != ms[b].id,
                    forall|b: int| i < b < j ==> ms[i as int].id != ms[b].id,
                decreases memories.len() - j,
            {
                if str_eq(memories[i].id.as_str(), memories[j].id.as_str()) {
                    assert(ms[i as int].id == ms[j as int].id);
                    return Err(StoreError::InvalidRows);
                }
                j = j + 1;
            }
            i = i + 1;
        }
        let mut k: usize = 0;
        while k < audit.len()
            invariant
                k <= audit.len(),
                ids_unique(ms),
                forall|x: int| 0 <= x < k ==> #[trigger] audit@[x].id == x + 1,
            decreases audit.len() - k,
        {
            if (audit[k].id as i128) != (k as i128) + 1 {
                assert(audit@[k as int].id != k + 1);
                return Err(StoreError::InvalidRows);
            }
            k = k + 1;
        }
        let s = MemoryStore { memories, links, audit };
        assert(s.audit_log() =~= audit@.map_values(|e: AuditEntry| e@));
        Ok(s)
    }

    /// Copies of the stored memories, in the order they were stored.
    pub fn all_memories(&self) -> (r: Vec<Memory>)
        ensures
            memory_views(r@) == self.memories(),
    {
        crate::types::copy_memories(self.memories.as_slice())
    }

    /// Copies of the link table's rows.
    pub fn link_rows(&self) -> (r: Vec<(String, String)>)
        ensures
            r@.map_values(|p: (String, String)| (p.0@, p.1@)) == self.links(),
    {
        let mut r: Vec<(String, String)> = Vec::new();
        let mut i: usize = 0;
        while i < self.links.len()
            invariant
                i <= self.links.len(),
                r@.map_values(|p: (String, String)| (p.0@, p.1@)) == self.links().take(i as int),
            decreases self.links.len() - i,
        {
            let ghost before = r@.map_values(|p: (String, String)| (p.0@, p.1@));
            r.push((self.links[i].0.clone(), self.links[i].1.clone()));
            assert(r@.map_values(|p: (String, String)| (p.0@, p.1@)) =~= before.push(self.links()[i as int]));
            assert(self.links().take(i + 1) =~= self.links().take(i as int).push(self.links()[i as int]));
            i = i + 1;
        }
        assert(self.links().take(self.links.len() as int) =~= self.links());
        r
    }

    /// A copy of one audit entry.
    fn audit_copy(&self, i: usize) -> (e: AuditEntry)
        requires
            i < self.audit@.len(),
        ensures
            e@ == self.audit_log()[i as int],
    {
        let a = &self.audit[i];
        AuditEntry {
            id: a.id,
            action: a.action.clone(),
            memory_id: a.memory_id.clone(),
            details: a.details.clone(),
            created_at: a.created_at,
        }
    }

    /// Records an action on a memory in the audit log at time `now`.
    pub fn log_at(&mut self, action: &str, memory_id: &str, details: &str, now: i64) -> (r: Result<(), StoreError>)
        requires
            old(self).wf(),
        ensures
            final(self).wf(),
            final(self).memories() == old(self).memories(),
            final(self).links() == old(self).links(),
            match r {
                Ok(()) => final(self).audit_log() == old(self).audit_log().push(
                    log_entry(old(self).audit_log().len() + 1, action@, memory_id@, details@, now),
                ),
                Err(e) => final(self).audit_log() == old(self).audit_log() && e is LogFull,
            },
    {
        self.push_log(action.to_owned(), memory_id.to_owned(), details.to_owned(), now)
    }

    /// Records an action on a memory in the audit log, now.
    pub fn log(&mut self, action: &str, memory_id: &str, details: &str) -> (r: Result<(), StoreError>)
        requires
            old(self).wf(),
        ensures
            final(self).wf(),
            final(self).memories() == old(self).memories(),
            final(self).links() == old(self).links(),
            match r {
                Ok(()) => final(self).audit_log().drop_last() == old(self).audit_log()
                    && final(self).audit_log().len() == old(self).audit_log().len() + 1
                    && final(self).audit_log().last() == log_entry(old(self).audit_log().len() + 1, action@,
                        memory_id@, details@, final(self).audit_log().last().created_at),
                Err(e) => final(self).audit_log() == old(self).audit_log() && e is LogFull,
            },
    {
        let now = now_micros();
        let ghost before = self.audit_log();
        let r = self.log_at(action, memory_id, details, now);
        proof {
            if r is Ok {
                assert(self.audit_log().drop_last() =~= before);
            }
        }
        r
    }

    /// The number of audit entries.
    pub fn audit_count(&self) -> (r: Result<usize, StoreError>)
        ensures
            r == Ok::<usize, StoreError>(self.audit_log().len() as usize),
    {
        Ok(self.audit.len())
    }

    /// Up to `limit` audit entries about the memory `memory_id` (about any memory when
    /// it is `None`), newest first.
    pub fn audit_entries(&self, memory_id: Option<&str>, limit: usize) -> (r: Result<Vec<AuditEntry>, StoreError>)
        ensures
            r matches Ok(v) && v@.map_values(|e: AuditEntry| e@) == first_n(
                self.audit_log().reverse().filter(|e: AuditView| match memory_id {
                    Some(id) => e.memory_id == id@,
                    None => true,
                }),
                limit as int,
            ),
    {
        let ghost rev = self.audit_log().reverse();
        let ghost f = |e: AuditView| match memory_id {
            Some(id) => e.memory_id == id@,
            None => true,
        };
        let mut v: Vec<AuditEntry> = Vec::new();
        let n = self.audit.len();
        let mut k: usize = 0;
        assert(rev.take(0) =~= Seq::<AuditView>::empty());
        while k < n
            invariant
                k <= n,
                n == self.audit@.len(),
                rev == self.audit_log().reverse(),
                f == (|e: AuditView| match memory_id {
                    Some(id) => e.memory_id == id@,
                    None => true,
                }),
                v@.map_values(|e: AuditEntry| e@) == rev.take(k as int).filter(f),
            decreases n - k,
        {
            let e = self.audit_copy(n - 1 - k);
            assert(rev[k as int] == self.audit_log()[n - 1 - k]);
            assert(rev.take(k + 1).drop_last() =~= rev.take(k as int));
            assert(rev.take(k + 1).last() == rev[k as int]);
            reveal_with_fuel(Seq::filter, 1);
            let keep = match memory_id {
                Some(id) => str_eq(e.memory_id.as_str(), id),
                None => true,
            };
            if keep {
                let ghost before = v@.map_values(|e: AuditEntry| e@);
                let ghost ev = e@;
                v.push(e);
                assert(v@.map_values(|e: AuditEntry| e@) =~= before.push(ev));
            }
            k = k + 1;
        }
        assert(rev.take(n as int) =~= rev);
        let ghost all = v@.map_values(|e: AuditEntry| e@);
        v.truncate(limit);
        assert(v@.map_values(|e: AuditEntry| e@) =~= first_n(all, limit as int));
        Ok(v)
    }

    /// Each tag of the ten thousand most recent memories with the number of times it is
    /// used, the most used first.
    pub fn list_tags(&self) -> (r: Result<Vec<TagInfo>, StoreError>)
        ensures
            r matches Ok(v) && ({
                let recent = first_n(recent_first(self.memories()), 10000);
                let counted = v@.map_values(|t: TagInfo| (t.tag@, t.count));
                &&& crate::census::is_census(crate::analytics::all_tags(recent, recent.len() as int), counted)
                &&& crate::census::most_first(counted)
            }),
    {
        let recent = self.recent(10000);
        let tags = crate::analytics::tag_list(recent.as_slice());
        let counted = crate::census::census_by_count(tags.as_slice());
        let mut v: Vec<TagInfo> = Vec::new();
        let mut i: usize = 0;
        while i < counted.len()
            invariant
                i <= counted.len(),
                v@.map_values(|t: TagInfo| (t.tag@, t.count)) == crate::census::tally_view(counted@).take(i as int),
            decreases counted.len() - i,
        {
            let ghost before = v@.map_values(|t: TagInfo| (t.tag@, t.count));
            v.push(TagInfo { tag: counted[i].0.clone(), count: counted[i].1 });
            assert(v@.map_values(|t: TagInfo| (t.tag@, t.count)) =~= before.push(crate::census::tally_view(counted@)[i as int]));
            assert(crate::census::tally_view(counted@).take(i + 1) =~= crate::census::tally_view(counted@).take(i as int).push(
                crate::census::tally_view(counted@)[i as int],
            ));
            i = i + 1;
        }
        assert(crate::census::tally_view(counted@).take(counted.len() as int) =~= crate::census::tally_view(counted@));
        Ok(v)
    }

    /// Each tag of the ten thousand most recent memories with the number of times it is
    /// used and the keys of the memories that use it (once per use), the most used first.
    pub fn tag_stats(&self) -> (r: Result<Vec<(String, usize, Vec<String>)>, StoreError>)
        ensures
            r matches Ok(v) && ({
                let recent = first_n(recent_first(self.memories()), 10000);
                let counted = v@.map_values(|t: (String, usize, Vec<String>)| (t.0@, t.1));
                &&& crate::census::is_census(crate::analytics::all_tags(recent, recent.len() as int), counted)
                &&& crate::census::most_first(counted)
                &&& forall|i: int| 0 <= i < v.len() ==> strs((#[trigger] v@[i]).2@) == tag_keys(recent, v@[i].0@, recent.len() as int)
            }),
    {
        let recent = self.recent(10000);
        let ghost rv = memory_views(recent@);
        let tags = crate::analytics::tag_list(recent.as_slice());
        let counted = crate::census::census_by_count(tags.as_slice());
        let mut v: Vec<(String, usize, Vec<String>)> = Vec::new();
        let mut i: usize = 0;
        while i < counted.len()
            invariant
                i <= counted.len(),
                rv == memory_views(recent@),
                v@.map_values(|t: (String, usize, Vec<String>)| (t.0@, t.1)) == crate::census::tally_view(counted@).take(i as int),
                forall|k: int| 0 <= k < v.len() ==> strs((#[trigger] v@[k]).2@) == tag_keys(rv, v@[k].0@, rv.len() as int),
            decreases counted.len() - i,
        {
            let t = counted[i].0.as_str();
            let mut keys: Vec<String> = Vec::new();
            let mut a: usize = 0;
            assert(strs(keys@) =~= tag_keys(rv, t@, 0));
            while a < recent.len()
                invariant
                    a <= recent.len(),
                    rv == memory_views(recent@),
                    strs(keys@) == tag_keys(rv, t@, a as int),
                decreases recent.len() - a,
            {
                let m = &recent[a];
                let ghost base = strs(keys@);
                let ghost ts = strs(m.tags@);
                let ghost f = crate::text::equal_to(t@);
                let ghost g = |x: Seq<char>| m@.key;
                let mut b: usize = 0;
                assert(ts.take(0) =~= Seq::<Seq<char>>::empty());
                assert(strs(keys@) =~= base + ts.take(0).filter(f).map_values(g));
                while b < m.tags.len()
                    invariant
                        b <= m.tags.len(),
                        ts == strs(m.tags@),
                        f == crate::text::equal_to(t@),
                        g == (|x: Seq<char>| m@.key),
                        strs(keys@) == base + ts.take(b as int).filter(f).map_values(g),
                    decreases m.tags.len() - b,
                {
                    assert(ts.take(b + 1).drop_last() =~= ts.take(b as int));
                    assert(ts.take(b + 1).last() == ts[b as int]);
                    reveal_with_fuel(Seq::filter, 1);
                    if str_eq(m.tags[b].as_str(), t) {
                        let ghost before = strs(keys@);
                        keys.push(m.key.clone());
                        assert(strs(keys@) =~= before.push(m@.key));
                        assert(ts.take(b + 1).filter(f) =~= ts.take(b as int).filter(f).push(ts[b as int]));
                        assert(strs(keys@) =~= base + ts.take(b + 1).filter(f).map_values(g));
                    } else {
                        assert(ts.take(b + 1).filter(f) =~= ts.take(b as int).filter(f));
                    }
                    b = b + 1;
                }
                assert(ts.take(m.tags.len() as int) =~= ts);
                assert(rv[a as int] == m@);
                assert(strs(keys@) =~= tag_keys(rv, t@, a + 1));
                a = a + 1;
            }
            let ghost before = v@.map_values(|t: (String, usize, Vec<String>)| (t.0@, t.1));
            v.push((counted[i].0.clone(), counted[i].1, keys));
            assert(v@.map_values(|t: (String, usize, Vec<String>)| (t.0@, t.1)) =~= before.push(crate::census::tally_view(counted@)[i as int]));
            assert(crate::census::tally_view(counted@).take(i + 1) =~= crate::census::tally_view(counted@).take(i as int).push(
                crate::census::tally_view(counted@)[i as int],
            ));
            i = i + 1;
        }
        assert(crate::census::tally_view(counted@).take(counted.len() as int) =~= crate::census::tally_view(counted@));
        Ok(v)
    }

    /// The number of stored memories.
    pub fn count(&self) -> (r: Result<usize, StoreError>)
        ensures
            r == Ok::<usize, StoreError>(self.memories().len() as usize),
    {
        Ok(self.memories.len())
    }
}


/// The first `n` items of `s`, or all of them when there are fewer.
pub open spec fn first_n<T>(s: Seq<T>, n: int) -> Seq<T> {
    if n < s.len() {
        s.take(n)
    } else {
        s
    }
}

/// The memories of one kind, or all of them.
pub open spec fn of_kind(ms: Seq<MemoryView>, kind: Option<MemoryKind>) -> Seq<MemoryView> {
    match kind {
        Some(k) => ms.filter(|m: MemoryView| m.kind == k),
        None => ms,
    }
}

/// How many leading memories of `s` were updated at `t` or later.
pub open spec fn leading_newer(s: Seq<MemoryView>, t: i64) -> nat
    decreases s.len(),
{
    if s.len() == 0 || s[0].updated_at < t {
        0
    } else {
        1 + leading_newer(s.drop_first(), t)
    }
}

/// The memories ordered by update time, most recent first; memories updated at the
/// same time keep their order.
pub open spec fn recent_first(s: Seq<MemoryView>) -> Seq<MemoryView>
    decreases s.len(),
{
    if s.len() == 0 {
        s
    } else {
        let r = recent_first(s.drop_last());
        r.insert(leading_newer(r, s.last().updated_at) as int, s.last())
    }
}

/// The leading run of newer memories is as long as the scan that finds it.
pub proof fn lemma_leading_newer(s: Seq<MemoryView>, t: i64, p: int)
    requires
        0 <= p <= s.len(),
        forall|j: int| 0 <= j < p ==> s[j].updated_at >= t,
        p == s.len() || s[p].updated_at < t,
    ensures
        leading_newer(s, t) == p,
    decreases p,
{
    if p > 0 {
        lemma_leading_newer(s.drop_first(), t, p - 1);
    }
}

/// The leading run is never longer than the sequence.
pub proof fn lemma_leading_newer_len(s: Seq<MemoryView>, t: i64)
    ensures
        leading_newer(s, t) <= s.len(),
    decreases s.len(),
{
    if s.len() > 0 && s[0].updated_at >= t {
        lemma_leading_newer_len(s.drop_first(), t);
    }
}

/// Ordering keeps the number of memories.
pub proof fn lemma_recent_first_len(s: Seq<MemoryView>)
    ensures
        recent_first(s).len() == s.len(),
    decreases s.len(),
{
    if s.len() > 0 {
        lemma_recent_first_len(s.drop_last());
        lemma_leading_newer_len(recent_first(s.drop_last()), s.last().updated_at);
    }
}

/// Where a memory updated at `t` goes in a list ordered most recent first.
fn newer_prefix(v: &Vec<Memory>, t: i64) -> (p: usize)
    ensures
        p == leading_newer(memory_views(v@), t),
        p <= v.len(),
{
    let mut p: usize = 0;
    while p < v.len() && v[p].updated_at >= t
        invariant
            p <= v.len(),
            forall|j: int| 0 <= j < p ==> v@[j].updated_at >= t,
        decreases v.len() - p,
    {
        p = p + 1;
    }
    proof {
        lemma_leading_newer(memory_views(v@), t, p as int);
    }
    p
}

/// Copies of the memories ordered most recent first, equal times in their order.
pub fn sort_recent(ms: &[Memory]) -> (r: Vec<Memory>)
    ensures
        memory_views(r@) == recent_first(memory_views(ms@)),
{
    let ghost s = memory_views(ms@);
    let mut r: Vec<Memory> = Vec::new();
    assert(s.take(0) =~= Seq::<MemoryView>::empty());
    let mut i: usize = 0;
    while i < ms.len()
        invariant
            i <= ms.len(),
            s == memory_views(ms@),
            memory_views(r@) == recent_first(s.take(i as int)),
        decreases ms.len() - i,
    {
        let m = ms[i].copy();
        let p = newer_prefix(&r, m.updated_at);
        let ghost before = memory_views(r@);
        r.insert(p, m);
        assert(s.take(i + 1).drop_last() =~= s.take(i as int));
        assert(s.take(i + 1).last() == m@);
        assert(memory_views(r@) =~= before.insert(p as int, m@));
        i = i + 1;
    }
    assert(s.take(ms.len() as int) =~= s);
    r
}


/// A memory with other related ids.
pub open spec fn with_related(m: MemoryView, rids: Seq<Seq<char>>) -> MemoryView {
    MemoryView {
        id: m.id,
        kind: m.kind,
        key: m.key,
        content: m.content,
        tags: m.tags,
        related_ids: rids,
        created_at: m.created_at,
        updated_at: m.updated_at,
    }
}

/// A memory with other tags, updated at `now`.
pub open spec fn with_tags(m: MemoryView, tags: Seq<Seq<char>>, now: i64) -> MemoryView {
    MemoryView {
        id: m.id,
        kind: m.kind,
        key: m.key,
        content: m.content,
        tags: tags,
        related_ids: m.related_ids,
        created_at: m.created_at,
        updated_at: now,
    }
}

/// The link pairs with `(a, b)` added when it is not there yet.
pub open spec fn link_added(ls: Seq<(Seq<char>, Seq<char>)>, a: Seq<char>, b: Seq<char>) -> Seq<(Seq<char>, Seq<char>)> {
    if ls.contains((a, b)) {
        ls
    } else {
        ls.push((a, b))
    }
}

/// The link pairs without `(a, b)`.
pub open spec fn link_removed(ls: Seq<(Seq<char>, Seq<char>)>, a: Seq<char>, b: Seq<char>) -> Seq<(Seq<char>, Seq<char>)> {
    ls.filter(|p: (Seq<char>, Seq<char>)| !(p.0 == a && p.1 == b))
}

/// The stored memories that the ids name, in the order of the ids; unknown ids are skipped.
pub open spec fn resolve_all(ms: Seq<MemoryView>, rids: Seq<Seq<char>>) -> Seq<MemoryView>
    decreases rids.len(),
{
    if rids.len() == 0 {
        seq![]
    } else {
        let r = resolve_all(ms, rids.drop_last());
        match lookup(ms, rids.last()) {
            Some(m) => r.push(m),
            None => r,
        }
    }
}

/// How many memories are of kind `k`.
pub open spec fn kind_count(ms: Seq<MemoryView>, k: MemoryKind) -> nat {
    ms.filter(|m: MemoryView| m.kind == k).len()
}

/// The kinds that occur, each once with its count, most frequent first.
pub open spec fn is_kind_census(ms: Seq<MemoryView>, r: Seq<(MemoryKind, usize)>) -> bool {
    &&& forall|i: int| 0 <= i < r.len() ==> (#[trigger] r[i]).1 == kind_count(ms, r[i].0) && r[i].1 > 0
    &&& forall|k: MemoryKind| kind_count(ms, k) > 0 ==> exists|i: int| 0 <= i < r.len() && (#[trigger] r[i]).0 == k
    &&& forall|i: int, j: int| 0 <= i < j < r.len() ==> r[i].0 != r[j].0 && r[i].1 >= r[j].1
}


/// `m` is what an input became: the input's fields, created and updated at one time.
pub open spec fn is_made_from(m: MemoryView, input: MemoryInputView) -> bool {
    m == memory_from(input, m.id, m.created_at)
}

/// `after` is `before` followed by memories made from the first inputs, in order.
pub open spec fn added_from(before: Seq<MemoryView>, after: Seq<MemoryView>, inputs: Seq<MemoryInputView>) -> bool {
    &&& before.len() <= after.len() <= before.len() + inputs.len()
    &&& after.take(before.len() as int) == before
    &&& forall|j: int| 0 <= j < after.len() - before.len() ==> is_made_from(#[trigger] after[before.len() + j], inputs[j])
}

/// A stored memory overwritten by the fields of `keep`, updated at `now`; its creation time stays.
pub open spec fn overwritten(m: MemoryView, keep: MemoryView, now: i64) -> MemoryView {
    MemoryView {
        id: m.id,
        kind: keep.kind,
        key: keep.key,
        content: keep.content,
        tags: keep.tags,
        related_ids: keep.related_ids,
        created_at: m.created_at,
        updated_at: now,
    }
}

/// The memories whose ids are not in `ids`.
pub open spec fn without_ids(ms: Seq<MemoryView>, ids: Seq<Seq<char>>) -> Seq<MemoryView> {
    ms.filter(|m: MemoryView| !ids.contains(m.id))
}

/// The memories whose key is not one of `keys`.
pub open spec fn without_keys(ms: Seq<MemoryView>, keys: Seq<Seq<char>>) -> Seq<MemoryView> {
    ms.filter(|m: MemoryView| !keys.contains(m.key))
}

/// The ids of the memories whose key is one of `keys`, in order.
pub open spec fn ids_with_keys(ms: Seq<MemoryView>, keys: Seq<Seq<char>>) -> Seq<Seq<char>> {
    ms.filter(|m: MemoryView| keys.contains(m.key)).map_values(|m: MemoryView| m.id)
}

/// The link pairs that touch none of `ids`.
pub open spec fn links_without_all(ls: Seq<(Seq<char>, Seq<char>)>, ids: Seq<Seq<char>>) -> Seq<(Seq<char>, Seq<char>)> {
    ls.filter(|p: (Seq<char>, Seq<char>)| !ids.contains(p.0) && !ids.contains(p.1))
}

/// Counts in `r` never increase.
pub open spec fn counts_descending(r: Seq<(MemoryKind, usize)>) -> bool {
    forall|i: int, j: int| 0 <= i < j < r.len() ==> r[i].1 >= r[j].1
}

/// Inserts `(k, c)` after every entry whose count is at least `c`; where it went.
fn insert_by_count(v: &mut Vec<(MemoryKind, usize)>, k: MemoryKind, c: usize) -> (p: usize)
    requires
        counts_descending(old(v)@),
    ensures
        p <= old(v)@.len(),
        final(v)@ == old(v)@.insert(p as int, (k, c)),
        counts_descending(final(v)@),
{
    let mut p: usize = 0;
    while p < v.len() && v[p].1 >= c
        invariant
            p <= v.len(),
            v@ == old(v)@,
            forall|a: int| 0 <= a < p ==> v@[a].1 >= c,
        decreases v.len() - p,
    {
        p = p + 1;
    }
    let ghost o = v@;
    assert forall|a: int| p <= a < o.len() implies o[a].1 < c by {
        if p < o.len() {
            assert(o[p as int].1 < c);
            if a > p {
                assert(o[p as int].1 >= o[a].1);
            }
        }
    }
    v.insert(p, (k, c));
    assert forall|a: int, b: int| 0 <= a < b < v@.len() implies v@[a].1 >= v@[b].1 by {
        if b < p {
            assert(v@[a] == o[a] && v@[b] == o[b]);
        } else if b == p {
            assert(v@[a] == o[a]);
        } else if a < p {
            assert(v@[a] == o[a] && v@[b] == o[b - 1]);
        } else if a == p {
            assert(v@[b] == o[b - 1]);
        } else {
            assert(v@[a] == o[a - 1] && v@[b] == o[b - 1]);
        }
    }
    p
}


/// Every kind, in declaration order.
pub open spec fn all_kinds() -> Seq<MemoryKind> {
    seq![
        MemoryKind::Convention,
        MemoryKind::Pattern,
        MemoryKind::Decision,
        MemoryKind::Preference,
        MemoryKind::Context,
    ]
}

/// The census of the first `i` kinds of `ks`.
pub open spec fn census_prefix(ms: Seq<MemoryView>, ks: Seq<MemoryKind>, i: int, v: Seq<(MemoryKind, usize)>) -> bool {
    &&& counts_descending(v)
    &&& forall|a: int| 0 <= a < v.len() ==> (#[trigger] v[a]).1 == kind_count(ms, v[a].0) && v[a].1 > 0
    &&& forall|a: int| 0 <= a < v.len() ==> exists|b: int| 0 <= b < i && ks[b] == (#[trigger] v[a]).0
    &&& forall|a: int, b: int| 0 <= a < b < v.len() ==> v[a].0 != v[b].0
    &&& forall|b: int| 0 <= b < i && kind_count(ms, #[trigger] ks[b]) > 0 ==> exists|a: int| 0 <= a < v.len() && v[a].0 == ks[b]
}

/// A kind with memories, inserted by count, extends the census.
#[verifier::spinoff_prover]
#[verifier::rlimit(40)]
pub proof fn lemma_census_insert(
    ms: Seq<MemoryView>,
    ks: Seq<MemoryKind>,
    i: int,
    o: Seq<(MemoryKind, usize)>,
    v: Seq<(MemoryKind, usize)>,
    p: int,
    k: MemoryKind,
    c: usize,
)
    requires
        ks == all_kinds(),
        0 <= i < ks.len(),
        census_prefix(ms, ks, i, o),
        ks[i] == k,
        c == kind_count(ms, k),
        c > 0,
        0 <= p <= o.len(),
        v == o.insert(p, (k, c)),
        counts_descending(v),
    ensures
        census_prefix(ms, ks, i + 1, v),
{
    assert forall|a: int| 0 <= a < o.len() implies o[a].0 != k by {
        let b = choose|b: int| 0 <= b < i && ks[b] == o[a].0;
    }
    assert forall|a: int| 0 <= a < v.len() implies (#[trigger] v[a]).1 == kind_count(ms, v[a].0) && v[a].1 > 0 by {
        if a < p {
            assert(v[a] == o[a]);
        } else if a > p {
            assert(v[a] == o[a - 1]);
        }
    }
    assert forall|a: int| 0 <= a < v.len() implies exists|b: int| 0 <= b < i + 1 && ks[b] == (#[trigger] v[a]).0 by {
        if a < p {
            assert(v[a] == o[a]);
            let b = choose|b: int| 0 <= b < i && ks[b] == o[a].0;
        } else if a > p {
            assert(v[a] == o[a - 1]);
            let b = choose|b: int| 0 <= b < i && ks[b] == o[a - 1].0;
        } else {
            assert(ks[i] == v[a].0);
        }
    }
    assert forall|a: int, b: int| 0 <= a < b < v.len() implies v[a].0 != v[b].0 by {
        let oa = if a < p { a } else { a - 1 };
        let ob = if b < p { b } else { b - 1 };
        if a != p && b != p {
            assert(v[a] == o[oa] && v[b] == o[ob]);
        } else if a == p {
            assert(v[b] == o[ob]);
        } else {
            assert(v[a] == o[oa]);
        }
    }
    assert forall|b: int| 0 <= b < i + 1 && kind_count(ms, #[trigger] ks[b]) > 0 implies exists|a: int|
        0 <= a < v.len() && v[a].0 == ks[b] by {
        if b < i {
            let a = choose|a: int| 0 <= a < o.len() && o[a].0 == ks[b];
            if a < p {
                assert(v[a] == o[a]);
            } else {
                assert(v[a + 1] == o[a]);
            }
        } else {
            assert(v[p].0 == ks[b]);
        }
    }
}

/// A kind without memories leaves the census as it is.
pub proof fn lemma_census_skip(ms: Seq<MemoryView>, ks: Seq<MemoryKind>, i: int, v: Seq<(MemoryKind, usize)>)
    requires
        0 <= i < ks.len(),
        census_prefix(ms, ks, i, v),
        kind_count(ms, ks[i]) == 0,
    ensures
        census_prefix(ms, ks, i + 1, v),
{
    assert forall|a: int| 0 <= a < v.len() implies exists|b: int| 0 <= b < i + 1 && ks[b] == (#[trigger] v[a]).0 by {
        let b = choose|b: int| 0 <= b < i && ks[b] == v[a].0;
    }
}

/// The census of every kind is complete.
pub proof fn lemma_census_complete(ms: Seq<MemoryView>, v: Seq<(MemoryKind, usize)>)
    requires
        census_prefix(ms, all_kinds(), 5, v),
    ensures
        is_kind_census(ms, v),
{
    let ks = all_kinds();
    assert forall|k: MemoryKind| kind_count(ms, k) > 0 implies exists|a: int|
        0 <= a < v.len() && (#[trigger] v[a]).0 == k by {
        let b: int = match k {
            MemoryKind::Convention => 0,
            MemoryKind::Pattern => 1,
            MemoryKind::Decision => 2,
            MemoryKind::Preference => 3,
            MemoryKind::Context => 4,
        };
        assert(ks[b] == k);
    }
}


/// Memory `j` is listed before memory `i` when the most recently updated come first
/// and equal times keep stored order.
pub open spec fn comes_before(ms: Seq<MemoryView>, j: int, i: int) -> bool {
    ms[j].updated_at > ms[i].updated_at || (ms[j].updated_at == ms[i].updated_at && j < i)
}

/// How many of the first `n` memories are listed before memory `i`.
pub open spec fn rank_below(ms: Seq<MemoryView>, i: int, n: int) -> nat
    decreases n,
{
    if n <= 0 {
        0
    } else {
        rank_below(ms, i, n - 1) + if comes_before(ms, n - 1, i) { 1nat } else { 0nat }
    }
}

/// The place of memory `i` when all are listed most recent first.
pub open spec fn rank(ms: Seq<MemoryView>, i: int) -> nat {
    rank_below(ms, i, ms.len() as int)
}

/// A tag operation reaches memory `i`: it is among the ten thousand listed first.
pub open spec fn reached(ms: Seq<MemoryView>, i: int) -> bool {
    rank(ms, i) < 10000
}

/// The tags after renaming `old` to `new`: `old` removed, `new` appended when absent.
pub open spec fn renamed_tags(tags: Seq<Seq<char>>, old: Seq<char>, new: Seq<char>) -> Seq<Seq<char>> {
    crate::text::push_absent(tags.filter(other_than(old)), new)
}

/// Each memory that the operation reaches and that holds `tag` is rewritten by `f`;
/// the others stay.
pub open spec fn retagged(ms: Seq<MemoryView>, tag: Seq<char>, f: spec_fn(MemoryView) -> MemoryView) -> Seq<MemoryView> {
    Seq::new(ms.len(), |i: int| if reached(ms, i) && ms[i].tags.contains(tag) { f(ms[i]) } else { ms[i] })
}

/// How many of the first `n` memories are reached and hold `tag`.
pub open spec fn retag_count(ms: Seq<MemoryView>, tag: Seq<char>, n: int) -> nat
    decreases n,
{
    if n <= 0 {
        0
    } else {
        retag_count(ms, tag, n - 1) + if reached(ms, n - 1) && ms[n - 1].tags.contains(tag) { 1nat } else { 0nat }
    }
}

/// The memory after a tag is added (a memory that has it already stays as it is).
pub open spec fn tag_added(m: MemoryView, tag: Seq<char>, now: i64) -> MemoryView {
    if m.tags.contains(tag) {
        m
    } else {
        with_tags(m, m.tags.push(tag), now)
    }
}

/// A memory of another kind, updated at `now`.
pub open spec fn with_kind(m: MemoryView, k: MemoryKind, now: i64) -> MemoryView {
    MemoryView {
        id: m.id,
        kind: k,
        key: m.key,
        content: m.content,
        tags: m.tags,
        related_ids: m.related_ids,
        created_at: m.created_at,
        updated_at: now,
    }
}

/// Deleting the memory `id`: the memories, the links, and whether it was stored.
pub open spec fn delete_one(ms: Seq<MemoryView>, ls: Seq<(Seq<char>, Seq<char>)>, id: Seq<char>) -> (Seq<MemoryView>, Seq<(Seq<char>, Seq<char>)>, bool) {
    if has_id(ms, id) {
        (ms.remove(id_index(ms, id)), links_without(ls, id), true)
    } else {
        (ms, ls, false)
    }
}

/// Deleting each id in turn: the memories, the links, and how many were stored.
pub open spec fn delete_each(ms: Seq<MemoryView>, ls: Seq<(Seq<char>, Seq<char>)>, ids: Seq<Seq<char>>) -> (Seq<MemoryView>, Seq<(Seq<char>, Seq<char>)>, nat)
    decreases ids.len(),
{
    if ids.len() == 0 {
        (ms, ls, 0)
    } else {
        let prev = delete_each(ms, ls, ids.drop_last());
        let step = delete_one(prev.0, prev.1, ids.last());
        (step.0, step.1, prev.2 + if step.2 { 1nat } else { 0nat })
    }
}

/// A memory matches a faceted search: of the kind, holding one of the tags, pinned
/// when asked, and holding the query in its key or content without regard to case.
pub open spec fn facet_match(
    m: MemoryView,
    query: Option<Seq<char>>,
    kind: Option<MemoryKind>,
    tags: Seq<Seq<char>>,
    pinned: Option<bool>,
) -> bool {
    &&& (kind matches Some(k) ==> m.kind == k)
    &&& (tags.len() > 0 ==> exists|i: int| 0 <= i < tags.len() && m.tags.contains(#[trigger] tags[i]))
    &&& (pinned == Some(true) ==> m.tags.contains("pinned"@))
    &&& (query matches Some(q) ==> crate::text::has_sub(crate::text::lower_text(m.key), crate::text::lower_text(q))
        || crate::text::has_sub(crate::text::lower_text(m.content), crate::text::lower_text(q)))
}

/// Every facet given holds of every memory that a faceted search returns, whatever
/// the limit: the asked-for kind, the pinned tag, one of the asked-for tags, and the
/// query in the key or the content without regard to case.
pub proof fn law_facets_hold(
    ms: Seq<MemoryView>,
    query: Option<Seq<char>>,
    kind: Option<MemoryKind>,
    tags: Seq<Seq<char>>,
    pinned: Option<bool>,
    limit: int,
)
    requires
        limit >= 0,
    ensures
        ({
            let res = first_n(first_n(recent_first(ms), 10000).filter(
                |m: MemoryView| facet_match(m, query, kind, tags, pinned)), limit);
            forall|i: int| 0 <= i < res.len() ==> {
                &&& (kind matches Some(k) ==> (#[trigger] res[i]).kind == k)
                &&& (pinned == Some(true) ==> res[i].tags.contains("pinned"@))
                &&& (tags.len() > 0 ==> exists|j: int| 0 <= j < tags.len() && res[i].tags.contains(#[trigger] tags[j]))
                &&& (query matches Some(q) ==> crate::text::has_sub(crate::text::lower_text(res[i].key), crate::text::lower_text(q))
                    || crate::text::has_sub(crate::text::lower_text(res[i].content), crate::text::lower_text(q)))
            }
        }),
{
    let f = |m: MemoryView| facet_match(m, query, kind, tags, pinned);
    let base = first_n(recent_first(ms), 10000);
    let fl = base.filter(f);
    let res = first_n(fl, limit);
    assert forall|i: int| 0 <= i < res.len() implies f(#[trigger] res[i]) by {
        assert(res[i] == fl[i]);
        base.lemma_filter_pred(f, i);
    }
}

/// A memory was updated inside the given bounds (each inclusive, each optional).
/// A memory's key, content or JSON tag list contains the pattern `%q%`.
pub open spec fn search_hit(m: MemoryView, q: Seq<char>) -> bool {
    like_contains(m.key, q) || like_contains(m.content, q) || like_contains(json_list(m.tags), q)
}

/// The test "is a search hit for `q`".
pub open spec fn search_hits(q: Seq<char>) -> spec_fn(MemoryView) -> bool {
    |m: MemoryView| search_hit(m, q)
}

pub open spec fn in_period(m: MemoryView, after: Option<i64>, before: Option<i64>) -> bool {
    &&& (after matches Some(a) ==> m.updated_at >= a)
    &&& (before matches Some(b) ==> m.updated_at <= b)
}


/// Adding `tag` to each id in turn, at `now`: the memories and how many ids were stored.
pub open spec fn tag_each(ms: Seq<MemoryView>, ids: Seq<Seq<char>>, tag: Seq<char>, now: i64) -> (Seq<MemoryView>, nat)
    decreases ids.len(),
{
    if ids.len() == 0 {
        (ms, 0)
    } else {
        let prev = tag_each(ms, ids.drop_last(), tag, now);
        let id = ids.last();
        if has_id(prev.0, id) {
            let i = id_index(prev.0, id);
            (prev.0.update(i, tag_added(prev.0[i], tag, now)), prev.1 + 1)
        } else {
            prev
        }
    }
}

/// Setting the kind of each id in turn, at `now`: the memories and how many ids were stored.
pub open spec fn kind_each(ms: Seq<MemoryView>, ids: Seq<Seq<char>>, k: MemoryKind, now: i64) -> (Seq<MemoryView>, nat)
    decreases ids.len(),
{
    if ids.len() == 0 {
        (ms, 0)
    } else {
        let prev = kind_each(ms, ids.drop_last(), k, now);
        let id = ids.last();
        if has_id(prev.0, id) {
            let i = id_index(prev.0, id);
            (prev.0.update(i, with_kind(prev.0[i], k, now)), prev.1 + 1)
        } else {
            prev
        }
    }
}


/// `after` is `before` with the tags of each reached memory that holds `tag` rewritten
/// by `new_tags`, those memories updated at some time; the others stay.
pub open spec fn retag_shape(
    before: Seq<MemoryView>,
    after: Seq<MemoryView>,
    tag: Seq<char>,
    new_tags: spec_fn(Seq<Seq<char>>) -> Seq<Seq<char>>,
) -> bool {
    &&& after.len() == before.len()
    &&& forall|i: int| 0 <= i < before.len() ==> (if reached(before, i) && before[i].tags.contains(tag) {
        #[trigger] after[i] == with_tags(before[i], new_tags(before[i].tags), after[i].updated_at)
    } else {
        after[i] == before[i]
    })
}


/// A memory read back after it was stored is the memory that was stored, and every
/// other memory reads as before.
pub proof fn law_read_after_write(ms: Seq<MemoryView>, m: MemoryView, other: Seq<char>)
    requires
        ids_unique(ms),
        !has_id(ms, m.id),
    ensures
        ids_unique(ms.push(m)),
        lookup(ms.push(m), m.id) == Some(m),
        other != m.id ==> lookup(ms.push(m), other) == lookup(ms, other),
{
    let n = ms.push(m);
    assert forall|i: int, j: int| 0 <= i < j < n.len() implies n[i].id != n[j].id by {
        if j == ms.len() {
            assert(n[i] == ms[i]);
        }
    }
    lemma_id_index(n, m.id, ms.len() as int);
    if other != m.id {
        if has_id(ms, other) {
            let i = choose|i: int| 0 <= i < ms.len() && ms[i].id == other;
            lemma_id_index(ms, other, i);
            assert(n[i] == ms[i]);
            lemma_id_index(n, other, i);
        } else {
            assert forall|i: int| 0 <= i < n.len() implies n[i].id != other by {
                if i < ms.len() {
                    assert(n[i] == ms[i]);
                }
            }
        }
    }
}

/// The ids among `rm` that name a stored memory, each once.
pub open spec fn named_stored(ms: Seq<MemoryView>, rm: Seq<Seq<char>>) -> Set<Seq<char>> {
    rm.to_set().filter(|x: Seq<char>| has_id(ms, x))
}

/// Merging deletes exactly the stored memories named among the ids to remove: as
/// many as there are distinct ids that are both named and stored, whatever repeats
/// or unknown ids the list holds; none that is kept is named.
pub proof fn law_merge_removes_named(ms: Seq<MemoryView>, rm: Seq<Seq<char>>)
    requires
        ids_unique(ms),
    ensures
        named_stored(ms, rm).finite(),
        ms.len() - without_ids(ms, rm).len() == named_stored(ms, rm).len(),
        forall|i: int| 0 <= i < without_ids(ms, rm).len() ==> !rm.contains(
            #[trigger] without_ids(ms, rm)[i].id),
    decreases ms.len(),
{
    broadcast use vstd::seq_lib::seq_to_set_is_finite;
    let f = |m: MemoryView| !rm.contains(m.id);
    rm.to_set().lemma_len_filter(|x: Seq<char>| has_id(ms, x));
    if ms.len() == 0 {
        assert(without_ids(ms, rm) =~= Seq::<MemoryView>::empty()) by {
            reveal_with_fuel(Seq::filter, 1);
        }
        assert(named_stored(ms, rm) =~= Set::<Seq<char>>::empty());
    } else {
        let p = ms.drop_last();
        let m = ms.last();
        assert(ids_unique(p));
        law_merge_removes_named(p, rm);
        assert(without_ids(ms, rm) == if f(m) { without_ids(p, rm).push(m) } else { without_ids(p, rm) }) by {
            reveal_with_fuel(Seq::filter, 1);
            assert(ms.drop_last() == p);
        }
        assert(!has_id(p, m.id)) by {
            if has_id(p, m.id) {
                let k = choose|k: int| 0 <= k < p.len() && p[k].id == m.id;
                assert(ms[k].id == ms[ms.len() - 1].id);
            }
        }
        assert forall|x: Seq<char>| has_id(ms, x) <==> (has_id(p, x) || x == m.id) by {
            if has_id(p, x) {
                let k = choose|k: int| 0 <= k < p.len() && p[k].id == x;
                assert(ms[k] == p[k]);
            }
            if x == m.id {
                assert(ms[ms.len() - 1].id == x);
            }
            if has_id(ms, x) {
                let k = choose|k: int| 0 <= k < ms.len() && ms[k].id == x;
                if k < p.len() {
                    assert(p[k] == ms[k]);
                }
            }
        }
        if rm.contains(m.id) {
            assert(named_stored(ms, rm) =~= named_stored(p, rm).insert(m.id));
        } else {
            assert(named_stored(ms, rm) =~= named_stored(p, rm));
        }
        assert forall|i: int| 0 <= i < without_ids(ms, rm).len() implies !rm.contains(
            #[trigger] without_ids(ms, rm)[i].id) by {
            if i < without_ids(p, rm).len() {
                assert(without_ids(ms, rm)[i] == without_ids(p, rm)[i]);
            }
        }
    }
}

/// A deleted memory reads as absent; the others read as before.
pub proof fn law_read_after_delete(ms: Seq<MemoryView>, id: Seq<char>, other: Seq<char>)
    requires
        ids_unique(ms),
        has_id(ms, id),
    ensures
        lookup(ms.remove(id_index(ms, id)), id) is None,
        other != id ==> lookup(ms.remove(id_index(ms, id)), other) == lookup(ms, other),
        ms.remove(id_index(ms, id)).len() == ms.len() - 1,
{
    let k = id_index(ms, id);
    let n = ms.remove(k);
    assert forall|i: int| 0 <= i < n.len() implies n[i].id != id by {
        let oi = if i < k { i } else { i + 1 };
        assert(n[i] == ms[oi]);
    }
    if other != id {
        assert(ids_unique(n)) by {
            assert forall|a: int, b: int| 0 <= a < b < n.len() implies n[a].id != n[b].id by {
                let oa = if a < k { a } else { a + 1 };
                let ob = if b < k { b } else { b + 1 };
                assert(n[a] == ms[oa] && n[b] == ms[ob]);
            }
        }
        if has_id(ms, other) {
            let i = choose|i: int| 0 <= i < ms.len() && ms[i].id == other;
            lemma_id_index(ms, other, i);
            let ni = if i < k { i } else { i - 1 };
            assert(n[ni] == ms[i]);
            lemma_id_index(n, other, ni);
        } else {
            assert forall|i: int| 0 <= i < n.len() implies n[i].id != other by {
                let oi = if i < k { i } else { i + 1 };
                assert(n[i] == ms[oi]);
            }
        }
    }
}

/// After a link the target is among the related ids; after an unlink it is not.
pub proof fn law_link_unlink(rids: Seq<Seq<char>>, dst: Seq<char>)
    ensures
        crate::text::push_absent(rids, dst).contains(dst),
        !rids.filter(other_than(dst)).contains(dst),
        rids.contains(dst) ==> crate::text::push_absent(rids, dst) == rids,
{
    if !rids.contains(dst) {
        assert(rids.push(dst)[rids.len() as int] == dst);
    }
    let f = other_than(dst);
    if rids.filter(f).contains(dst) {
        let i = choose|i: int| 0 <= i < rids.filter(f).len() && rids.filter(f)[i] == dst;
        rids.filter_lemma(f);
        assert(f(rids.filter(f)[i]));
    }
}

/// A rewrite keeps the memory's id and creation time, and only moves its update time
/// to the time of the rewrite.
pub proof fn law_update_keeps_identity(m: MemoryView, input: MemoryInputView, now: i64)
    ensures
        memory_rewritten(m, input, now).id == m.id,
        memory_rewritten(m, input, now).created_at == m.created_at,
        memory_rewritten(m, input, now).updated_at == now,
        memory_rewritten(m, input, now).key == input.key,
        memory_rewritten(m, input, now).content == input.content,
{
}


/// Update times never increase along the sequence.
pub open spec fn newest_first(s: Seq<MemoryView>) -> bool {
    forall|i: int, j: int| 0 <= i < j < s.len() ==> s[i].updated_at >= s[j].updated_at
}

/// In a newest-first sequence the leading run of memories at `t` or later is exactly
/// those at `t` or later.
proof fn lemma_leading_newer_split(s: Seq<MemoryView>, t: i64)
    requires
        newest_first(s),
    ensures
        forall|j: int| 0 <= j < leading_newer(s, t) ==> s[j].updated_at >= t,
        forall|j: int| leading_newer(s, t) <= j < s.len() ==> s[j].updated_at < t,
    decreases s.len(),
{
    lemma_leading_newer_len(s, t);
    if s.len() > 0 && s[0].updated_at >= t {
        let d = s.drop_first();
        assert(newest_first(d)) by {
            assert forall|i: int, j: int| 0 <= i < j < d.len() implies d[i].updated_at >= d[j].updated_at by {
                assert(d[i] == s[i + 1] && d[j] == s[j + 1]);
            }
        }
        lemma_leading_newer_split(d, t);
        assert forall|j: int| 0 <= j < leading_newer(s, t) implies s[j].updated_at >= t by {
            if j > 0 {
                assert(s[j] == d[j - 1]);
            }
        }
        assert forall|j: int| leading_newer(s, t) <= j < s.len() implies s[j].updated_at < t by {
            assert(s[j] == d[j - 1]);
        }
    } else if s.len() > 0 {
        assert forall|j: int| 0 <= j < s.len() implies s[j].updated_at < t by {
            if j > 0 {
                assert(s[0].updated_at >= s[j].updated_at);
            }
        }
    }
}

/// Listing most recent first orders the memories by update time, newest first, and
/// neither loses nor adds a memory.
pub proof fn law_recent_first_orders(s: Seq<MemoryView>)
    ensures
        newest_first(recent_first(s)),
        recent_first(s).to_multiset() == s.to_multiset(),
    decreases s.len(),
{
    broadcast use vstd::seq_lib::group_to_multiset_ensures;
    if s.len() > 0 {
        let r = recent_first(s.drop_last());
        let x = s.last();
        law_recent_first_orders(s.drop_last());
        lemma_leading_newer_split(r, x.updated_at);
        lemma_leading_newer_len(r, x.updated_at);
        let p = leading_newer(r, x.updated_at) as int;
        let n = r.insert(p, x);
        assert forall|i: int, j: int| 0 <= i < j < n.len() implies n[i].updated_at >= n[j].updated_at by {
            if j < p {
                assert(n[i] == r[i] && n[j] == r[j]);
            } else if j == p {
                assert(n[i] == r[i]);
            } else if i < p {
                assert(n[i] == r[i] && n[j] == r[j - 1]);
            } else if i == p {
                assert(n[j] == r[j - 1]);
            } else {
                assert(n[i] == r[i - 1] && n[j] == r[j - 1]);
            }
        }
        assert(n.remove(p) =~= r);
        assert(n.remove(p).to_multiset() =~= n.to_multiset().remove(x));
        assert(n.contains(x)) by {
            assert(n[p] == x);
        }
        assert(n.to_multiset() =~= r.to_multiset().insert(x));
        assert(s.drop_last().push(x) =~= s);
        assert(s.to_multiset() =~= s.drop_last().to_multiset().insert(x));
    }
}


/// The keys of the first `n` memories, once for each time the memory holds tag `t`.
pub open spec fn tag_keys(ms: Seq<MemoryView>, t: Seq<char>, n: int) -> Seq<Seq<char>>
    decreases n,
{
    if n <= 0 {
        seq![]
    } else {
        tag_keys(ms, t, n - 1) + ms[n - 1].tags.filter(crate::text::equal_to(t)).map_values(|x: Seq<char>| ms[n - 1].key)
    }
}

} // verus!
