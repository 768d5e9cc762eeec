//! Templates: ready-made sets of memories, built in or saved by the user, and how a
//! template is applied to a store.

use vstd::prelude::*;
use crate::text::{strs, str_eq, owned};
use crate::types::{
    Memory, MemoryInput, MemoryInputView, MemoryKind, copy_strings, kind_from_name,
    kind_name,
};
use crate::store::{MemoryStore, StoreError, added_from};

verus! {

/// One memory of a built-in template.
#[derive(Debug, Clone)]
pub struct TemplateMemory {
    pub kind: MemoryKind,
    pub key: String,
    pub content: String,
    pub tags: Vec<String>,
}

/// The plain value of a template memory.
pub struct TemplateMemoryView {
    pub kind: MemoryKind,
    pub key: Seq<char>,
    pub content: Seq<char>,
    pub tags: Seq<Seq<char>>,
}

impl View for TemplateMemory {
    type V = TemplateMemoryView;

    open spec fn view(&self) -> TemplateMemoryView {
        TemplateMemoryView { kind: self.kind, key: self.key@, content: self.content@, tags: strs(self.tags@) }
    }
}

impl TemplateMemory {
    /// The input that stores this memory: its fields, with no related ids.
    pub fn to_input(&self) -> (r: MemoryInput)
        ensures
            r@ == (MemoryInputView {
                kind: self.kind,
                key: self.key@,
                content: self.content@,
                tags: strs(self.tags@),
                related_ids: seq![],
            }),
    {
        let r = MemoryInput {
            kind: self.kind,
            key: self.key.clone(),
            content: self.content.clone(),
            tags: copy_strings(&self.tags),
            related_ids: Vec::new(),
        };
        assert(r@.related_ids =~= Seq::<Seq<char>>::empty());
        r
    }
}

/// A built-in template: a name, a description and its memories.
#[derive(Debug, Clone)]
pub struct Template {
    pub name: String,
    pub description: String,
    pub memories: Vec<TemplateMemory>,
}

/// The plain value of a template.
pub struct TemplateView {
    pub name: Seq<char>,
    pub description: Seq<char>,
    pub memories: Seq<TemplateMemoryView>,
}

impl View for Template {
    type V = TemplateView;

    open spec fn view(&self) -> TemplateView {
        TemplateView {
            name: self.name@,
            description: self.description@,
            memories: self.memories@.map_values(|m: TemplateMemory| m@),
        }
    }
}

/// The plain values of a list of templates.
pub open spec fn template_views(v: Seq<Template>) -> Seq<TemplateView> {
    v.map_values(|t: Template| t@)
}

/// A template with one memory.
pub open spec fn one_memory_template(
    name: Seq<char>,
    description: Seq<char>,
    kind: MemoryKind,
    key: Seq<char>,
    content: Seq<char>,
    tags: Seq<Seq<char>>,
) -> TemplateView {
    TemplateView {
        name,
        description,
        memories: seq![TemplateMemoryView { kind, key, content, tags }],
    }
}

/// The built-in templates, in order.
pub open spec fn builtin_templates() -> Seq<TemplateView> {
    seq![
        one_memory_template("rust-lib"@, "Rust library conventions"@, MemoryKind::Convention, "naming"@,
            "Use snake_case for functions, CamelCase for types"@, seq!["rust"@]),
        one_memory_template("rust-cli"@, "Rust CLI conventions"@, MemoryKind::Pattern, "cli-framework"@,
            "Use clap with derive API"@, seq!["rust"@, "cli"@]),
        one_memory_template("nextjs"@, "Next.js conventions"@, MemoryKind::Convention, "file-naming"@,
            "Use kebab-case for files"@, seq!["nextjs"@]),
        one_memory_template("python-api"@, "Python FastAPI conventions"@, MemoryKind::Convention, "naming"@,
            "Use snake_case for functions"@, seq!["python"@]),
        one_memory_template("go-service"@, "Go service conventions"@, MemoryKind::Pattern, "error-handling"@,
            "Return errors as the last value and wrap them with context"@, seq!["go"@]),
        one_memory_template("react-app"@, "React app conventions"@, MemoryKind::Convention, "component-naming"@,
            "Use PascalCase for components, one component per file"@, seq!["react"@]),
    ]
}

/// A template with one memory.
fn one_memory(name: &str, description: &str, kind: MemoryKind, key: &str, content: &str, tags: Vec<String>) -> (t: Template)
    ensures
        t@ == one_memory_template(name@, description@, kind, key@, content@, strs(tags@)),
{
    let m = TemplateMemory { kind, key: owned(key), content: owned(content), tags };
    let mut ms: Vec<TemplateMemory> = Vec::new();
    ms.push(m);
    let t = Template { name: owned(name), description: owned(description), memories: ms };
    assert(t@.memories =~= seq![m@]);
    t
}

/// A list of one string.
fn one_tag(a: &str) -> (v: Vec<String>)
    ensures
        strs(v@) == seq![a@],
{
    let mut v: Vec<String> = Vec::new();
    v.push(owned(a));
    assert(strs(v@) =~= seq![a@]);
    v
}

/// The six built-in templates.
pub fn get_builtin_templates() -> (r: Vec<Template>)
    ensures
        template_views(r@) == builtin_templates(),
        r.len() == 6,
        forall|i: int, j: int| 0 <= i < j < 6 ==> (#[trigger] r@[i]).name@ != (#[trigger] r@[j]).name@,
        forall|i: int| 0 <= i < 6 ==> (#[trigger] r@[i]).memories.len() >= 1,
{
    let mut cli_tags = one_tag("rust");
    let ghost b = strs(cli_tags@);
    cli_tags.push(owned("cli"));
    assert(strs(cli_tags@) =~= b.push("cli"@));
    assert(strs(cli_tags@) =~= seq!["rust"@, "cli"@]);
    let mut r: Vec<Template> = Vec::new();
    r.push(one_memory("rust-lib", "Rust library conventions", MemoryKind::Convention, "naming",
        "Use snake_case for functions, CamelCase for types", one_tag("rust")));
    r.push(one_memory("rust-cli", "Rust CLI conventions", MemoryKind::Pattern, "cli-framework",
        "Use clap with derive API", cli_tags));
    r.push(one_memory("nextjs", "Next.js conventions", MemoryKind::Convention, "file-naming",
        "Use kebab-case for files", one_tag("nextjs")));
    r.push(one_memory("python-api", "Python FastAPI conventions", MemoryKind::Convention, "naming",
        "Use snake_case for functions", one_tag("python")));
    r.push(one_memory("go-service", "Go service conventions", MemoryKind::Pattern, "error-handling",
        "Return errors as the last value and wrap them with context", one_tag("go")));
    r.push(one_memory("react-app", "React app conventions", MemoryKind::Convention, "component-naming",
        "Use PascalCase for components, one component per file", one_tag("react")));
    assert(template_views(r@) =~= builtin_templates());
    proof {
        reveal_strlit("rust-lib");
        reveal_strlit("rust-cli");
        reveal_strlit("nextjs");
        reveal_strlit("python-api");
        reveal_strlit("go-service");
        reveal_strlit("react-app");
        assert forall|i: int, j: int| 0 <= i < j < 6 implies (#[trigger] r@[i]).name@ != (#[trigger] r@[j]).name@ by {
            assert(r@[i].name@ == template_views(r@)[i].name);
            assert(r@[j].name@ == template_views(r@)[j].name);
            assert(r@[i].name@[0] != r@[j].name@[0] || r@[i].name@.len() != r@[j].name@.len() || r@[i].name@[5] != r@[j].name@[5]);
        }
        assert forall|i: int| 0 <= i < 6 implies (#[trigger] r@[i]).memories.len() >= 1 by {
            assert(r@[i]@.memories.len() == template_views(r@)[i].memories.len());
        }
    }
    r
}

/// The first template of `ts` named `name`, if any.
pub open spec fn first_named(ts: Seq<TemplateView>, name: Seq<char>) -> Option<TemplateView> {
    if exists|i: int| 0 <= i < ts.len() && ts[i].name == name {
        let i = choose|i: int| 0 <= i < ts.len() && ts[i].name == name && forall|j: int| 0 <= j < i ==> ts[j].name != name;
        Some(ts[i])
    } else {
        None
    }
}

/// The built-in template named `name`.
pub fn find_template(name: &str) -> (r: Option<Template>)
    ensures
        match r {
            Some(t) => first_named(builtin_templates(), name@) == Some(t@),
            None => first_named(builtin_templates(), name@) is None,
        },
{
    let all = get_builtin_templates();
    let ghost tv = template_views(all@);
    let mut i: usize = 0;
    while i < all.len()
        invariant
            i <= all.len(),
            tv == template_views(all@),
            tv == builtin_templates(),
            forall|j: int| 0 <= j < i ==> tv[j].name != name@,
        decreases all.len() - i,
    {
        if str_eq(all[i].name.as_str(), name) {
            assert(tv[i as int].name == name@);
            let t = all[i].clone_template();
            proof {
                let k = choose|k: int| 0 <= k < tv.len() && tv[k].name == name@ && forall|j: int| 0 <= j < k ==> tv[j].name != name@;
                assert(k == i) by {
                    if k < i {
                    } else if k > i {
                        assert(tv[i as int].name == name@);
                    }
                }
            }
            return Some(t);
        }
        i = i + 1;
    }
    None
}

/// The name and description of each built-in template.
pub fn list_template_names() -> (r: Vec<(String, String)>)
    ensures
        r@.map_values(|p: (String, String)| (p.0@, p.1@)) == builtin_templates().map_values(
            |t: TemplateView| (t.name, t.description),
        ),
{
    let all = get_builtin_templates();
    let ghost tv = template_views(all@);
    let mut r: Vec<(String, String)> = Vec::new();
    let mut i: usize = 0;
    while i < all.len()
        invariant
            i <= all.len(),
            tv == template_views(all@),
            tv == builtin_templates(),
            r@.map_values(|p: (String, String)| (p.0@, p.1@)) == tv.take(i as int).map_values(
                |t: TemplateView| (t.name, t.description),
            ),
        decreases all.len() - i,
    {
        let ghost before = r@.map_values(|p: (String, String)| (p.0@, p.1@));
        r.push((all[i].name.clone(), all[i].description.clone()));
        assert(r@.map_values(|p: (String, String)| (p.0@, p.1@)) =~= before.push((tv[i as int].name, tv[i as int].description)));
        assert(tv.take(i + 1).map_values(|t: TemplateView| (t.name, t.description)) =~= tv.take(i as int).map_values(
            |t: TemplateView| (t.name, t.description),
        ).push((tv[i as int].name, tv[i as int].description)));
        i = i + 1;
    }
    assert(tv.take(all.len() as int) =~= tv);
    r
}

impl TemplateMemory {
    /// A copy of this template memory.
    pub fn clone_memory(&self) -> (r: TemplateMemory)
        ensures
            r@ == self@,
    {
        TemplateMemory {
            kind: self.kind,
            key: self.key.clone(),
            content: self.content.clone(),
            tags: copy_strings(&self.tags),
        }
    }
}

impl Template {
    /// A copy of this template.
    pub fn clone_template(&self) -> (r: Template)
        ensures
            r@ == self@,
    {
        let mut ms: Vec<TemplateMemory> = Vec::new();
        let mut i: usize = 0;
        while i < self.memories.len()
            invariant
                i <= self.memories.len(),
                ms@.map_values(|m: TemplateMemory| m@) == self.memories@.take(i as int).map_values(|m: TemplateMemory| m@),
            decreases self.memories.len() - i,
        {
            let ghost before = ms@.map_values(|m: TemplateMemory| m@);
            let c = self.memories[i].clone_memory();
            ms.push(c);
            assert(ms@.map_values(|m: TemplateMemory| m@) =~= before.push(c@));
            assert(self.memories@.take(i + 1).map_values(|m: TemplateMemory| m@) =~= self.memories@.take(i as int).map_values(
                |m: TemplateMemory| m@,
            ).push(self.memories@[i as int]@));
            i = i + 1;
        }
        assert(self.memories@.take(self.memories.len() as int) =~= self.memories@);
        Template { name: self.name.clone(), description: self.description.clone(), memories: ms }
    }
}

/// One memory of a saved template; its kind is kept as text.
#[derive(Debug, Clone)]
pub struct CustomTemplateMemory {
    pub kind: String,
    pub key: String,
    pub content: String,
    pub tags: Vec<String>,
}

/// A template saved by the user.
#[derive(Debug, Clone)]
pub struct CustomTemplate {
    pub name: String,
    pub description: String,
    pub memories: Vec<CustomTemplateMemory>,
    pub created_at: String,
    pub tags: Vec<String>,
}

/// The memory input that a saved template memory stands for: its kind parsed (context
/// when the text names no kind), no related ids.
pub open spec fn custom_input(kind: Seq<char>, key: Seq<char>, content: Seq<char>, tags: Seq<Seq<char>>) -> MemoryInputView {
    MemoryInputView {
        kind: match kind_from_name(kind) {
            Some(k) => k,
            None => MemoryKind::Context,
        },
        key,
        content,
        tags,
        related_ids: seq![],
    }
}

/// The inputs of a saved template, in order.
pub open spec fn custom_inputs(t: CustomTemplate) -> Seq<MemoryInputView> {
    t.memories@.map_values(|m: CustomTemplateMemory| custom_input(m.kind@, m.key@, m.content@, strs(m.tags@)))
}

/// The first saved template named `name`.
pub fn find_custom_template<'a>(templates: &'a [CustomTemplate], name: &str) -> (r: Option<&'a CustomTemplate>)
    ensures
        match r {
            Some(t) => exists|i: int| 0 <= i < templates.len() && templates@[i] == *t && t.name@ == name@
                && forall|j: int| 0 <= j < i ==> templates@[j].name@ != name@,
            None => forall|i: int| 0 <= i < templates.len() ==> templates@[i].name@ != name@,
        },
{
    let mut i: usize = 0;
    while i < templates.len()
        invariant
            i <= templates.len(),
            forall|j: int| 0 <= j < i ==> templates@[j].name@ != name@,
        decreases templates.len() - i,
    {
        if str_eq(templates[i].name.as_str(), name) {
            return Some(&templates[i]);
        }
        i = i + 1;
    }
    None
}

/// The name, description and number of memories of each saved template.
pub fn list_custom_templates(templates: &[CustomTemplate]) -> (r: Vec<(String, String, usize)>)
    ensures
        r.len() == templates.len(),
        forall|i: int| 0 <= i < r.len() ==> (#[trigger] r@[i]).0@ == templates@[i].name@
            && r@[i].1@ == templates@[i].description@ && r@[i].2 == templates@[i].memories.len(),
{
    let mut r: Vec<(String, String, usize)> = Vec::new();
    let mut i: usize = 0;
    while i < templates.len()
        invariant
            i <= templates.len(),
            r.len() == i,
            forall|k: int| 0 <= k < i ==> (#[trigger] r@[k]).0@ == templates@[k].name@
                && r@[k].1@ == templates@[k].description@ && r@[k].2 == templates@[k].memories.len(),
        decreases templates.len() - i,
    {
        let t = &templates[i];
        r.push((t.name.clone(), t.description.clone(), t.memories.len()));
        i = i + 1;
    }
    r
}

/// Why a saved template could not be applied.
#[derive(Debug)]
pub enum TemplateError {
    /// No saved template has this name.
    NotFound(String),
    /// The store refused a memory.
    Store(StoreError),
}

impl TemplateError {
    /// The message that explains the failure.
    pub fn message(&self) -> (m: String)
        ensures
            self matches TemplateError::NotFound(n) ==> m@ == "Custom template '"@ + n@ + "' not found"@,
            self is Store ==> m@ == "the store refused a memory"@,
    {
        match self {
            TemplateError::NotFound(n) => {
                let mut m = "Custom template '".to_owned();
                crate::text::append_str(&mut m, n.as_str());
                crate::text::append_str(&mut m, "' not found");
                m
            },
            TemplateError::Store(_) => "the store refused a memory".to_owned(),
        }
    }
}

/// Applies the saved template named `name`: stores a memory for each of its memories,
/// in order, each under a fresh id; how many. The first refusal of the store stops it.
pub fn apply_custom_template(store: &mut MemoryStore, templates: &[CustomTemplate], name: &str) -> (r: Result<usize, TemplateError>)
    requires
        old(store).wf(),
    ensures
        final(store).wf(),
        final(store).links() == old(store).links(),
        match r {
            Ok(n) => exists|i: int| 0 <= i < templates.len() && templates@[i].name@ == name@
                && (forall|j: int| 0 <= j < i ==> templates@[j].name@ != name@)
                && n == templates@[i].memories.len()
                && final(store).memories().len() == old(store).memories().len() + n
                && added_from(old(store).memories(), final(store).memories(), custom_inputs(templates@[i])),
            Err(TemplateError::NotFound(n)) => n@ == name@ && final(store).memories() == old(store).memories()
                && forall|i: int| 0 <= i < templates.len() ==> templates@[i].name@ != name@,
            Err(TemplateError::Store(e)) => exists|i: int| 0 <= i < templates.len() && templates@[i].name@ == name@
                && added_from(old(store).memories(), final(store).memories(), custom_inputs(templates@[i]))
                && final(store).memories().len() < old(store).memories().len() + templates@[i].memories.len()
                && (e is DuplicateId || e is LogFull)
                && (e is LogFull ==> final(store).audit_log().len() >= i64::MAX)
                && (e matches StoreError::DuplicateId(d) ==> crate::store::has_id(final(store).memories(), d@)),
        },
{
    let t = match find_custom_template(templates, name) {
        Some(t) => t,
        None => {
            return Err(TemplateError::NotFound(owned(name)));
        },
    };
    let ghost ins = custom_inputs(*t);
    let ghost idx = choose|i: int| 0 <= i < templates.len() && templates@[i] == *t && t.name@ == name@
        && forall|j: int| 0 <= j < i ==> templates@[j].name@ != name@;
    assert(custom_inputs(templates@[idx]) == ins);
    let ghost start = store.memories();
    let mut c: usize = 0;
    assert(store.memories().take(start.len() as int) =~= start);
    while c < t.memories.len()
        invariant
            store.wf(),
            c <= t.memories.len(),
            ins == custom_inputs(*t),
            0 <= idx < templates.len(),
            templates@[idx] == *t,
            t.name@ == name@,
            forall|j: int| 0 <= j < idx ==> templates@[j].name@ != name@,
            start == old(store).memories(),
            store.links() == old(store).links(),
            store.memories().len() == start.len() + c,
            added_from(start, store.memories(), ins),
        decreases t.memories.len() - c,
    {
        let m = &t.memories[c];
        let kind = match MemoryKind::parse_kind(m.kind.as_str()) {
            Ok(k) => k,
            Err(_) => MemoryKind::Context,
        };
        let input = MemoryInput {
            kind,
            key: m.key.clone(),
            content: m.content.clone(),
            tags: copy_strings(&m.tags),
            related_ids: Vec::new(),
        };
        assert(input@.related_ids =~= Seq::<Seq<char>>::empty());
        assert(input@ == ins[c as int]);
        let ghost before = store.memories();
        match store.add(input) {
            Ok(mm) => {
                assert(store.memories() == before.push(mm@));
                assert(store.memories().take(start.len() as int) =~= before.take(start.len() as int));
                assert forall|j: int| 0 <= j < store.memories().len() - start.len() implies
                    crate::store::is_made_from(#[trigger] store.memories()[start.len() + j], ins[j]) by {
                    if j < c {
                        assert(store.memories()[start.len() + j] == before[start.len() + j]);
                    }
                }
            },
            Err(e) => {
                assert(templates@[idx].name@ == name@);
                return Err(TemplateError::Store(e));
            },
        }
        c = c + 1;
    }
    assert(templates@[idx].memories.len() == c);
    Ok(c)
}

/// A saved template made from memories: their kind names, keys, contents and tags,
/// stamped with `created_at`, without tags of its own.
pub fn create_template_from_memories_at(name: &str, description: &str, memories: &[Memory], created_at: String) -> (r: CustomTemplate)
    ensures
        r.name@ == name@,
        r.description@ == description@,
        r.created_at@ == created_at@,
        r.tags@.len() == 0,
        r.memories.len() == memories.len(),
        forall|i: int| 0 <= i < memories.len() ==> {
            &&& (#[trigger] r.memories@[i]).kind@ == kind_name(memories@[i].kind)
            &&& r.memories@[i].key@ == memories@[i].key@
            &&& r.memories@[i].content@ == memories@[i].content@
            &&& strs(r.memories@[i].tags@) == strs(memories@[i].tags@)
        },
{
    let mut ms: Vec<CustomTemplateMemory> = Vec::new();
    let mut i: usize = 0;
    while i < memories.len()
        invariant
            i <= memories.len(),
            ms.len() == i,
            forall|k: int| 0 <= k < i ==> {
                &&& (#[trigger] ms@[k]).kind@ == kind_name(memories@[k].kind)
                &&& ms@[k].key@ == memories@[k].key@
                &&& ms@[k].content@ == memories@[k].content@
                &&& strs(ms@[k].tags@) == strs(memories@[k].tags@)
            },
        decreases memories.len() - i,
    {
        let m = &memories[i];
        ms.push(CustomTemplateMemory {
            kind: m.kind.to_string(),
            key: m.key.clone(),
            content: m.content.clone(),
            tags: copy_strings(&m.tags),
        });
        i = i + 1;
    }
    CustomTemplate {
        name: owned(name),
        description: owned(description),
        memories: ms,
        created_at,
        tags: Vec::new(),
    }
}

/// A saved template made from memories, stamped now.
pub fn create_template_from_memories(name: &str, description: &str, memories: &[Memory]) -> (r: CustomTemplate)
    ensures
        r.name@ == name@,
        r.description@ == description@,
        r.tags@.len() == 0,
        r.memories.len() == memories.len(),
        forall|i: int| 0 <= i < memories.len() ==> {
            &&& (#[trigger] r.memories@[i]).kind@ == kind_name(memories@[i].kind)
            &&& r.memories@[i].key@ == memories@[i].key@
            &&& r.memories@[i].content@ == memories@[i].content@
            &&& strs(r.memories@[i].tags@) == strs(memories@[i].tags@)
        },
{
    let now = crate::runtime::now_rfc3339();
    create_template_from_memories_at(name, description, memories, now)
}

} // verus!
