//! The replies of the memory tools that an AI assistant calls: what each tool does
//! to the store and the text it answers with.

use vstd::prelude::*;
use crate::text::{str_eq, decimal, join, join_strings, append_str, push_decimal, owned, byte_cut, byte_prefix};
use crate::types::{Memory, MemoryView, MemoryKind, MemoryInput, memory_views, kind_name};
use crate::store::{MemoryStore, StoreError, has_id, id_index, lookup, resolve_all, first_n, recent_first, of_kind};
use crate::calendar::{utc_display, display_text};
use crate::dashboard::id_shows;

verus! {

/// The answer to a stored memory: its kind, key and id.
pub open spec fn stored_text(m: MemoryView) -> Seq<char> {
    "Stored memory ["@ + kind_name(m.kind) + "] "@ + m.key + ": "@ + m.id
}

/// The answer to a stored memory.
pub fn stored_reply(m: &Memory) -> (r: String)
    ensures
        r@ == stored_text(m@),
{
    let mut r = owned("Stored memory [");
    append_str(&mut r, m.kind.to_string().as_str());
    append_str(&mut r, "] ");
    append_str(&mut r, m.key.as_str());
    append_str(&mut r, ": ");
    append_str(&mut r, m.id.as_str());
    r
}

/// Stores a new memory and answers with it; a refused add gives the store's error:
/// the log is full, or the fresh random id was taken already.
pub fn add_tool(store: &mut MemoryStore, input: MemoryInput) -> (r: Result<String, StoreError>)
    requires
        old(store).wf(),
    ensures
        final(store).wf(),
        final(store).links() == old(store).links(),
        match r {
            Ok(text) => final(store).memories().len() == old(store).memories().len() + 1
                && final(store).memories().drop_last() == old(store).memories()
                && !has_id(old(store).memories(), final(store).memories().last().id)
                && final(store).memories().last() == crate::store::memory_from(
                    input@,
                    final(store).memories().last().id,
                    final(store).memories().last().created_at,
                ) && final(store).audit_log() == old(store).audit_log().push(
                    crate::store::log_entry(old(store).audit_log().len() + 1, "add"@,
                        final(store).memories().last().id, crate::store::entry_details(input@.kind, input@.key),
                        final(store).memories().last().created_at),
                ) && text@ == stored_text(final(store).memories().last()),
            Err(e) => final(store).memories() == old(store).memories()
                && final(store).audit_log() == old(store).audit_log()
                && (e is DuplicateId || e is LogFull)
                && (e is LogFull ==> old(store).audit_log().len() >= i64::MAX)
                && (e matches StoreError::DuplicateId(d) ==> has_id(old(store).memories(), d@)),
        },
        old(store).audit_log().len() >= i64::MAX ==> r is Err,
        old(store).memories().len() == 0 && old(store).audit_log().len() < i64::MAX ==> r is Ok,
{
    match store.add(input) {
        Ok(m) => {
            let text = stored_reply(&m);
            assert(store.memories().drop_last() =~= old(store).memories());
            Ok(text)
        },
        Err(e) => Err(e),
    }
}

/// One line of a listing: kind, key and content.
pub open spec fn listed_line(m: MemoryView) -> Seq<char> {
    "["@ + kind_name(m.kind) + "] "@ + m.key + ": "@ + m.content + "\n"@
}

/// The lines of the first `i` memories.
pub open spec fn listed_lines(ms: Seq<MemoryView>, i: int) -> Seq<char>
    decreases i,
{
    if i <= 0 || i > ms.len() {
        Seq::empty()
    } else {
        listed_lines(ms, i - 1) + listed_line(ms[i - 1])
    }
}

/// The answer to a listing: how many memories, then a line for each.
pub open spec fn list_text(ms: Seq<MemoryView>) -> Seq<char> {
    if ms.len() == 0 {
        "No memories stored yet."@
    } else {
        decimal(ms.len()) + " memories:\n\n"@ + listed_lines(ms, ms.len() as int)
    }
}

/// The answer to a listing of some memories.
pub fn list_reply(memories: &[Memory]) -> (r: String)
    ensures
        r@ == list_text(memory_views(memories@)),
{
    if memories.len() == 0 {
        return owned("No memories stored yet.");
    }
    let ghost ms = memory_views(memories@);
    let mut r = String::new();
    push_decimal(&mut r, memories.len());
    append_str(&mut r, " memories:\n\n");
    let ghost head = r@;
    let mut i: usize = 0;
    while i < memories.len()
        invariant
            i <= memories.len(),
            ms == memory_views(memories@),
            r@ == head + listed_lines(ms, i as int),
        decreases memories.len() - i,
    {
        let m = &memories[i];
        append_str(&mut r, "[");
        append_str(&mut r, m.kind.to_string().as_str());
        append_str(&mut r, "] ");
        append_str(&mut r, m.key.as_str());
        append_str(&mut r, ": ");
        append_str(&mut r, m.content.as_str());
        append_str(&mut r, "\n");
        assert(ms[i as int] == m@);
        assert(r@ =~= head + listed_lines(ms, i + 1));
        i = i + 1;
    }
    r
}

/// Lists the most recent memories, of one kind or of all, up to `limit`.
pub fn list_tool(store: &MemoryStore, kind: Option<MemoryKind>, limit: usize) -> (r: String)
    requires
        store.wf(),
    ensures
        r@ == list_text(first_n(recent_first(of_kind(store.memories(), kind)), limit as int)),
{
    let memories = match store.list(kind, limit) {
        Ok(v) => v,
        Err(_) => Vec::new(),
    };
    list_reply(memories.as_slice())
}

/// The answer to a deletion.
pub open spec fn deleted_text(found: bool, id: Seq<char>) -> Seq<char> {
    if found {
        "Deleted memory "@ + id
    } else {
        "Memory '"@ + id + "' not found"@
    }
}

/// Deletes the memory `id` and says whether there was one.
pub fn delete_tool(store: &mut MemoryStore, id: &str) -> (r: String)
    requires
        old(store).wf(),
    ensures
        final(store).wf(),
        !has_id(final(store).memories(), id@),
        has_id(old(store).memories(), id@) ==> final(store).memories() == old(store).memories().remove(
            id_index(old(store).memories(), id@),
        ),
        !has_id(old(store).memories(), id@) ==> final(store).memories() == old(store).memories(),
        r@ == deleted_text(has_id(old(store).memories(), id@), id@),
{
    let found = match store.delete(id) {
        Ok(b) => b,
        Err(_) => false,
    };
    if found {
        let mut r = owned("Deleted memory ");
        append_str(&mut r, id);
        r
    } else {
        let mut r = owned("Memory '");
        append_str(&mut r, id);
        append_str(&mut r, "' not found");
        r
    }
}

/// The answer to a link.
pub open spec fn linked_text(done: bool, src: Seq<char>, dst: Seq<char>) -> Seq<char> {
    if done {
        "Linked "@ + src + " -> "@ + dst
    } else {
        "One or both memory IDs not found"@
    }
}

/// Links `src` to `dst` and says whether both were there.
pub fn link_tool(store: &mut MemoryStore, src: &str, dst: &str) -> (r: String)
    requires
        old(store).wf(),
    ensures
        final(store).wf(),
        !(has_id(old(store).memories(), src@) && has_id(old(store).memories(), dst@)) ==> final(store).memories()
            == old(store).memories(),
        r@ == linked_text(has_id(old(store).memories(), src@) && has_id(old(store).memories(), dst@), src@, dst@),
{
    let done = match store.link(src, dst) {
        Ok(b) => b,
        Err(_) => false,
    };
    if done {
        let mut r = owned("Linked ");
        append_str(&mut r, src);
        append_str(&mut r, " -> ");
        append_str(&mut r, dst);
        r
    } else {
        owned("One or both memory IDs not found")
    }
}

/// A time as the assistant reads it (empty outside chrono's range of dates).
pub open spec fn time_shown(t: i64) -> Seq<char> {
    match utc_display(t) {
        Some(s) => s,
        None => Seq::empty(),
    }
}

fn push_time(r: &mut String, t: i64)
    ensures
        final(r)@ == old(r)@ + time_shown(t),
{
    match display_text(t) {
        Some(s) => append_str(r, s.as_str()),
        None => {
            assert(old(r)@ + Seq::<char>::empty() =~= old(r)@);
        },
    }
}

/// One related memory: kind, key and the first eight bytes of its id.
pub open spec fn related_line(m: MemoryView) -> Seq<char> {
    "  - ["@ + kind_name(m.kind) + "] "@ + m.key + ": "@ + byte_cut(m.id, 8) + "\n"@
}

/// The lines of the first `i` related memories.
pub open spec fn related_lines(ms: Seq<MemoryView>, i: int) -> Seq<char>
    decreases i,
{
    if i <= 0 || i > ms.len() {
        Seq::empty()
    } else {
        related_lines(ms, i - 1) + related_line(ms[i - 1])
    }
}

/// The answer to a look-up: every field of the memory, then its related memories.
pub open spec fn memory_text(m: MemoryView, related: Seq<MemoryView>) -> Seq<char> {
    "ID: "@ + m.id + "\nKind: "@ + kind_name(m.kind) + "\nKey: "@ + m.key + "\nContent: "@ + m.content + "\nTags: "@
        + join(m.tags, ", "@) + "\nCreated: "@ + time_shown(m.created_at) + "\nUpdated: "@ + time_shown(m.updated_at)
        + if related.len() == 0 {
        Seq::empty()
    } else {
        "\nRelated memories:\n"@ + related_lines(related, related.len() as int)
    }
}

/// The answer to looking up `id` in `ms`.
pub open spec fn get_text(ms: Seq<MemoryView>, id: Seq<char>) -> Seq<char> {
    match lookup(ms, id) {
        Some(m) => memory_text(m, resolve_all(ms, m.related_ids)),
        None => "Memory '"@ + id + "' not found"@,
    }
}

/// Every memory related to the memory `id` has an id that shows by its first eight
/// bytes.
pub open spec fn related_ids_show(ms: Seq<MemoryView>, id: Seq<char>) -> bool {
    match lookup(ms, id) {
        Some(m) => forall|k: int|
            0 <= k < resolve_all(ms, m.related_ids).len() ==> id_shows(#[trigger] resolve_all(ms, m.related_ids)[k].id),
        None => true,
    }
}

/// Looks up the memory `id` and answers with all it holds.
pub fn get_tool(store: &MemoryStore, id: &str) -> (r: String)
    requires
        store.wf(),
        related_ids_show(store.memories(), id@),
    ensures
        r@ == get_text(store.memories(), id@),
{
    let found = match store.get(id) {
        Ok(o) => o,
        Err(_) => None,
    };
    match found {
        Some(m) => {
            let mut r = owned("ID: ");
            append_str(&mut r, m.id.as_str());
            append_str(&mut r, "\nKind: ");
            append_str(&mut r, m.kind.to_string().as_str());
            append_str(&mut r, "\nKey: ");
            append_str(&mut r, m.key.as_str());
            append_str(&mut r, "\nContent: ");
            append_str(&mut r, m.content.as_str());
            append_str(&mut r, "\nTags: ");
            append_str(&mut r, join_strings(m.tags.as_slice(), ", ").as_str());
            append_str(&mut r, "\nCreated: ");
            push_time(&mut r, m.created_at);
            append_str(&mut r, "\nUpdated: ");
            push_time(&mut r, m.updated_at);
            let related = match store.get_related(id) {
                Ok(v) => v,
                Err(_) => Vec::new(),
            };
            let ghost rel = memory_views(related@);
            if related.len() > 0 {
                let ghost head = r@;
                append_str(&mut r, "\nRelated memories:\n");
                let ghost head2 = r@;
                let mut i: usize = 0;
                while i < related.len()
                    invariant
                        i <= related.len(),
                        rel == memory_views(related@),
                        forall|k: int| 0 <= k < rel.len() ==> id_shows(#[trigger] rel[k].id),
                        r@ == head2 + related_lines(rel, i as int),
                    decreases related.len() - i,
                {
                    let x = &related[i];
                    assert(rel[i as int] == x@);
                    append_str(&mut r, "  - [");
                    append_str(&mut r, x.kind.to_string().as_str());
                    append_str(&mut r, "] ");
                    append_str(&mut r, x.key.as_str());
                    append_str(&mut r, ": ");
                    append_str(&mut r, byte_prefix(x.id.as_str(), 8).as_str());
                    append_str(&mut r, "\n");
                    assert(r@ =~= head2 + related_lines(rel, i + 1));
                    i = i + 1;
                }
            }
            r
        },
        None => {
            let mut r = owned("Memory '");
            append_str(&mut r, id);
            append_str(&mut r, "' not found");
            r
        },
    }
}

/// The requests the server answers.
#[derive(Debug, Clone, Copy, PartialEq, Eq, Structural)]
pub enum RpcMethod {
    Initialize,
    Initialized,
    ToolsList,
    ToolsCall,
    Ping,
    Unknown,
}

/// The request a method name asks for.
pub open spec fn method_of(name: Seq<char>) -> RpcMethod {
    if name == "initialize"@ {
        RpcMethod::Initialize
    } else if name == "notifications/initialized"@ {
        RpcMethod::Initialized
    } else if name == "tools/list"@ {
        RpcMethod::ToolsList
    } else if name == "tools/call"@ {
        RpcMethod::ToolsCall
    } else if name == "ping"@ {
        RpcMethod::Ping
    } else {
        RpcMethod::Unknown
    }
}

/// The request a method name asks for.
pub fn rpc_method(name: &str) -> (r: RpcMethod)
    ensures
        r == method_of(name@),
{
    if str_eq(name, "initialize") {
        RpcMethod::Initialize
    } else if str_eq(name, "notifications/initialized") {
        RpcMethod::Initialized
    } else if str_eq(name, "tools/list") {
        RpcMethod::ToolsList
    } else if str_eq(name, "tools/call") {
        RpcMethod::ToolsCall
    } else if str_eq(name, "ping") {
        RpcMethod::Ping
    } else {
        RpcMethod::Unknown
    }
}

/// The tools an assistant can call.
#[derive(Debug, Clone, Copy, PartialEq, Eq, Structural)]
pub enum Tool {
    Add,
    Search,
    List,
    Get,
    Delete,
    Context,
    Link,
}

/// The tool a name calls, if any.
pub open spec fn tool_of(name: Seq<char>) -> Option<Tool> {
    if name == "memory_add"@ {
        Some(Tool::Add)
    } else if name == "memory_search"@ {
        Some(Tool::Search)
    } else if name == "memory_list"@ {
        Some(Tool::List)
    } else if name == "memory_get"@ {
        Some(Tool::Get)
    } else if name == "memory_delete"@ {
        Some(Tool::Delete)
    } else if name == "memory_context"@ {
        Some(Tool::Context)
    } else if name == "memory_link"@ {
        Some(Tool::Link)
    } else {
        None
    }
}

/// The tool a name calls, if any.
pub fn tool_named(name: &str) -> (r: Option<Tool>)
    ensures
        r == tool_of(name@),
{
    if str_eq(name, "memory_add") {
        Some(Tool::Add)
    } else if str_eq(name, "memory_search") {
        Some(Tool::Search)
    } else if str_eq(name, "memory_list") {
        Some(Tool::List)
    } else if str_eq(name, "memory_get") {
        Some(Tool::Get)
    } else if str_eq(name, "memory_delete") {
        Some(Tool::Delete)
    } else if str_eq(name, "memory_context") {
        Some(Tool::Context)
    } else if str_eq(name, "memory_link") {
        Some(Tool::Link)
    } else {
        None
    }
}

// ---------------------------------------------------------------------------
// The tool list
// ---------------------------------------------------------------------------

/// The type of a tool argument.
#[derive(Debug, Clone, Copy, PartialEq, Eq, Structural)]
pub enum ParamType {
    Text,
    Integer,
    TextList,
}

/// One argument of a tool: its name and type, whether it must be a kind name, and
/// its description and default value where it has them.
#[derive(Debug, Clone)]
pub struct ToolParam {
    pub name: String,
    pub param_type: ParamType,
    pub kinds_only: bool,
    pub description: Option<String>,
    pub default: Option<u64>,
}

/// The plain value of a tool argument.
pub struct ParamView {
    pub name: Seq<char>,
    pub param_type: ParamType,
    pub kinds_only: bool,
    pub description: Option<Seq<char>>,
    pub default: Option<u64>,
}

/// The text of an optional string.
pub open spec fn opt_text(o: Option<String>) -> Option<Seq<char>> {
    match o {
        Some(s) => Some(s@),
        None => None,
    }
}

impl View for ToolParam {
    type V = ParamView;

    open spec fn view(&self) -> ParamView {
        ParamView {
            name: self.name@,
            param_type: self.param_type,
            kinds_only: self.kinds_only,
            description: opt_text(self.description),
            default: self.default,
        }
    }
}

/// What the server tells an assistant of one tool: its name, what it does, its
/// arguments and the names of those it must be given.
#[derive(Debug, Clone)]
pub struct ToolDescriptor {
    pub name: String,
    pub description: String,
    pub params: Vec<ToolParam>,
    pub required: Vec<String>,
}

/// The plain value of a tool description.
pub struct DescriptorView {
    pub name: Seq<char>,
    pub description: Seq<char>,
    pub params: Seq<ParamView>,
    pub required: Seq<Seq<char>>,
}

impl View for ToolDescriptor {
    type V = DescriptorView;

    open spec fn view(&self) -> DescriptorView {
        DescriptorView {
            name: self.name@,
            description: self.description@,
            params: self.params@.map_values(|p: ToolParam| p@),
            required: crate::text::strs(self.required@),
        }
    }
}

/// The plain values of some tool descriptions.
pub open spec fn descriptor_views(v: Seq<ToolDescriptor>) -> Seq<DescriptorView> {
    v.map_values(|d: ToolDescriptor| d@)
}

/// An argument of text.
pub open spec fn text_param(name: Seq<char>, description: Option<Seq<char>>) -> ParamView {
    ParamView { name, param_type: ParamType::Text, kinds_only: false, description, default: None }
}

/// An argument that names a kind.
pub open spec fn kind_param(description: Option<Seq<char>>) -> ParamView {
    ParamView { name: "kind"@, param_type: ParamType::Text, kinds_only: true, description, default: None }
}

/// The `limit` argument with its default.
pub open spec fn limit_param(default: u64) -> ParamView {
    ParamView { name: "limit"@, param_type: ParamType::Integer, kinds_only: false, description: None, default: Some(default) }
}

/// The seven tools, in the order they are listed.
pub open spec fn tool_table() -> Seq<DescriptorView> {
    seq![
        DescriptorView {
            name: "memory_add"@,
            description: "Store a project convention, pattern, decision, preference, or context"@,
            params: seq![
                kind_param(Some("Type of memory"@)),
                text_param("key"@, Some("Short identifier (e.g. 'naming-rust', 'db-choice')"@)),
                text_param("content"@, Some("The full memory content"@)),
                ParamView { name: "tags"@, param_type: ParamType::TextList, kinds_only: false,
                    description: Some("Optional tags for categorization"@), default: None },
            ],
            required: seq!["kind"@, "key"@, "content"@],
        },
        DescriptorView {
            name: "memory_search"@,
            description: "Search project memories by keyword with fuzzy matching"@,
            params: seq![text_param("query"@, Some("Search query"@)), limit_param(10)],
            required: seq!["query"@],
        },
        DescriptorView {
            name: "memory_list"@,
            description: "List all project memories, optionally filtered by kind"@,
            params: seq![kind_param(None), limit_param(50)],
            required: seq![],
        },
        DescriptorView {
            name: "memory_get"@,
            description: "Get a single memory by ID with its related memories"@,
            params: seq![text_param("id"@, None)],
            required: seq!["id"@],
        },
        DescriptorView {
            name: "memory_delete"@,
            description: "Delete a memory by ID"@,
            params: seq![text_param("id"@, None)],
            required: seq!["id"@],
        },
        DescriptorView {
            name: "memory_context"@,
            description: "Get all project memories as formatted context for AI consumption. Returns conventions, patterns, decisions, and preferences organized by category."@,
            params: seq![],
            required: seq![],
        },
        DescriptorView {
            name: "memory_link"@,
            description: "Link two related memories together"@,
            params: seq![text_param("source_id"@, None), text_param("target_id"@, None)],
            required: seq!["source_id"@, "target_id"@],
        },
    ]
}

fn mk_param(name: &str, param_type: ParamType, kinds_only: bool, description: Option<&str>, default: Option<u64>) -> (p: ToolParam)
    ensures
        p@ == (ParamView {
            name: name@,
            param_type,
            kinds_only,
            description: match description { Some(d) => Some(d@), None => None },
            default,
        }),
{
    ToolParam {
        name: owned(name),
        param_type,
        kinds_only,
        description: match description {
            Some(d) => Some(owned(d)),
            None => None,
        },
        default,
    }
}

fn mk_tool(name: &str, description: &str, params: Vec<ToolParam>, required: Vec<String>) -> (d: ToolDescriptor)
    ensures
        d@ == (DescriptorView {
            name: name@,
            description: description@,
            params: params@.map_values(|p: ToolParam| p@),
            required: crate::text::strs(required@),
        }),
{
    ToolDescriptor { name: owned(name), description: owned(description), params, required }
}

fn names(a: &str, b: &str, c: &str, n: usize) -> (v: Vec<String>)
    requires
        n <= 3,
    ensures
        crate::text::strs(v@) == seq![a@, b@, c@].take(n as int),
{
    let mut v: Vec<String> = Vec::new();
    if n > 0 {
        v.push(owned(a));
    }
    if n > 1 {
        v.push(owned(b));
    }
    if n > 2 {
        v.push(owned(c));
    }
    assert(crate::text::strs(v@) =~= seq![a@, b@, c@].take(n as int));
    v
}

/// The tools the server offers, described for an assistant.
pub fn tool_descriptors() -> (r: Vec<ToolDescriptor>)
    ensures
        descriptor_views(r@) == tool_table(),
        r.len() == 7,
        forall|i: int| 0 <= i < r.len() ==> tool_of((#[trigger] r@[i]).name@) is Some,
{
    let mut r: Vec<ToolDescriptor> = Vec::new();
    let add_params = vec![
        mk_param("kind", ParamType::Text, true, Some("Type of memory"), None),
        mk_param("key", ParamType::Text, false, Some("Short identifier (e.g. 'naming-rust', 'db-choice')"), None),
        mk_param("content", ParamType::Text, false, Some("The full memory content"), None),
        mk_param("tags", ParamType::TextList, false, Some("Optional tags for categorization"), None),
    ];
    let d0 = mk_tool("memory_add", "Store a project convention, pattern, decision, preference, or context", add_params,
        names("kind", "key", "content", 3));
    assert(d0@.params =~= tool_table()[0].params);
    assert(d0@.required =~= tool_table()[0].required);
    assert(d0@ == tool_table()[0]);
    r.push(d0);
    let search_params = vec![
        mk_param("query", ParamType::Text, false, Some("Search query"), None),
        mk_param("limit", ParamType::Integer, false, None, Some(10)),
    ];
    let d1 = mk_tool("memory_search", "Search project memories by keyword with fuzzy matching", search_params,
        names("query", "", "", 1));
    assert(d1@.params =~= tool_table()[1].params);
    assert(d1@.required =~= tool_table()[1].required);
    assert(d1@ == tool_table()[1]);
    r.push(d1);
    let list_params = vec![
        mk_param("kind", ParamType::Text, true, None, None),
        mk_param("limit", ParamType::Integer, false, None, Some(50)),
    ];
    let d2 = mk_tool("memory_list", "List all project memories, optionally filtered by kind", list_params,
        names("", "", "", 0));
    assert(d2@.params =~= tool_table()[2].params);
    assert(d2@.required =~= tool_table()[2].required);
    assert(d2@ == tool_table()[2]);
    r.push(d2);
    let d3 = mk_tool("memory_get", "Get a single memory by ID with its related memories",
        vec![mk_param("id", ParamType::Text, false, None, None)], names("id", "", "", 1));
    assert(d3@.params =~= tool_table()[3].params);
    assert(d3@.required =~= tool_table()[3].required);
    assert(d3@ == tool_table()[3]);
    r.push(d3);
    let d4 = mk_tool("memory_delete", "Delete a memory by ID",
        vec![mk_param("id", ParamType::Text, false, None, None)], names("id", "", "", 1));
    assert(d4@.params =~= tool_table()[4].params);
    assert(d4@.required =~= tool_table()[4].required);
    assert(d4@ == tool_table()[4]);
    r.push(d4);
    let d5 = mk_tool("memory_context",
        "Get all project memories as formatted context for AI consumption. Returns conventions, patterns, decisions, and preferences organized by category.",
        Vec::new(), names("", "", "", 0));
    assert(d5@.params =~= tool_table()[5].params);
    assert(d5@.required =~= tool_table()[5].required);
    assert(d5@ == tool_table()[5]);
    r.push(d5);
    let link_params = vec![
        mk_param("source_id", ParamType::Text, false, None, None),
        mk_param("target_id", ParamType::Text, false, None, None),
    ];
    let d6 = mk_tool("memory_link", "Link two related memories together", link_params,
        names("source_id", "target_id", "", 2));
    assert(d6@.params =~= tool_table()[6].params);
    assert(d6@.required =~= tool_table()[6].required);
    assert(d6@ == tool_table()[6]);
    r.push(d6);
    assert(descriptor_views(r@) =~= tool_table());
    proof {
        reveal_strlit("memory_add");
        reveal_strlit("memory_search");
        reveal_strlit("memory_list");
        reveal_strlit("memory_get");
        reveal_strlit("memory_delete");
        reveal_strlit("memory_context");
        reveal_strlit("memory_link");
        assert forall|i: int| 0 <= i < r.len() implies tool_of((#[trigger] r@[i]).name@) is Some by {
            assert(r@[i].name@ == tool_table()[i].name);
        }
    }
    r
}

} // verus!
