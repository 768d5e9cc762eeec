//! Plugins: commands that run when memories change, and the example plugin.

use vstd::prelude::*;
use crate::text::{strs, str_eq, owned, join, join_strings};
use crate::types::{Memory, kind_name, copy_strings};

verus! {

/// One command of a plugin, run on an event.
#[derive(Debug, Clone)]
pub struct PluginHook {
    pub event: String,
    pub command: String,
    pub args: Vec<String>,
}

/// A plugin: its description and the commands it runs.
#[derive(Debug, Clone)]
pub struct Plugin {
    pub name: String,
    pub description: String,
    pub version: String,
    pub author: String,
    pub hooks: Vec<PluginHook>,
    pub enabled: bool,
}

/// The plugins of a project.
#[derive(Debug, Clone)]
pub struct PluginConfig {
    pub plugins: Vec<Plugin>,
}

/// A hook.
fn hook(event: &str, command: &str, arg: &str) -> (h: PluginHook)
    ensures
        h.event@ == event@,
        h.command@ == command@,
        strs(h.args@) == seq![arg@],
{
    let mut args: Vec<String> = Vec::new();
    args.push(owned(arg));
    assert(strs(args@) =~= seq![arg@]);
    PluginHook { event: owned(event), command: owned(command), args }
}

/// The example plugin: it echoes the key of each memory added and the id of each
/// memory deleted.
pub fn create_example_plugin() -> (p: Plugin)
    ensures
        p.name@ == "example"@,
        p.description@ == "Example plugin that logs memory changes"@,
        p.version@ == "0.1.0"@,
        p.author@ == "You"@,
        p.enabled,
        p.hooks.len() == 2,
        p.hooks@[0].event@ == "memory_added"@,
        p.hooks@[0].command@ == "echo"@,
        strs(p.hooks@[0].args@) == seq!["Memory added: $PMEM_MEMORY_KEY"@],
        p.hooks@[1].event@ == "memory_deleted"@,
        p.hooks@[1].command@ == "echo"@,
        strs(p.hooks@[1].args@) == seq!["Memory deleted: $PMEM_MEMORY_ID"@],
{
    let mut hooks: Vec<PluginHook> = Vec::new();
    hooks.push(hook("memory_added", "echo", "Memory added: $PMEM_MEMORY_KEY"));
    hooks.push(hook("memory_deleted", "echo", "Memory deleted: $PMEM_MEMORY_ID"));
    Plugin {
        name: owned("example"),
        description: owned("Example plugin that logs memory changes"),
        version: owned("0.1.0"),
        author: owned("You"),
        hooks,
        enabled: true,
    }
}

/// The hooks of the enabled plugins that answer `event`, plugin by plugin, in order.
pub open spec fn hooks_for(plugins: Seq<Plugin>, event: Seq<char>, n: int) -> Seq<PluginHook>
    decreases n,
{
    if n <= 0 {
        seq![]
    } else {
        let p = plugins[n - 1];
        hooks_for(plugins, event, n - 1) + if p.enabled {
            p.hooks@.filter(|h: PluginHook| h.event@ == event)
        } else {
            seq![]
        }
    }
}

/// A copy of a hook.
fn copy_hook(h: &PluginHook) -> (r: PluginHook)
    ensures
        r.event@ == h.event@,
        r.command@ == h.command@,
        strs(r.args@) == strs(h.args@),
{
    PluginHook { event: h.event.clone(), command: h.command.clone(), args: copy_strings(&h.args) }
}

/// The hooks to run for `event`: those of the enabled plugins whose event it is.
pub fn hooks_to_run(plugins: &[Plugin], event: &str) -> (r: Vec<PluginHook>)
    ensures
        r@.map_values(|h: PluginHook| (h.event@, h.command@, strs(h.args@))) == hooks_for(plugins@, event@, plugins.len() as int).map_values(
            |h: PluginHook| (h.event@, h.command@, strs(h.args@)),
        ),
{
    let mut r: Vec<PluginHook> = Vec::new();
    let mut i: usize = 0;
    assert(r@.map_values(|h: PluginHook| (h.event@, h.command@, strs(h.args@))) =~= hooks_for(plugins@, event@, 0).map_values(
        |h: PluginHook| (h.event@, h.command@, strs(h.args@)),
    ));
    while i < plugins.len()
        invariant
            i <= plugins.len(),
            r@.map_values(|h: PluginHook| (h.event@, h.command@, strs(h.args@))) == hooks_for(plugins@, event@, i as int).map_values(
                |h: PluginHook| (h.event@, h.command@, strs(h.args@)),
            ),
        decreases plugins.len() - i,
    {
        let p = &plugins[i];
        let ghost base = hooks_for(plugins@, event@, i as int);
        let ghost f = |h: PluginHook| h.event@ == event@;
        let ghost g = |h: PluginHook| (h.event@, h.command@, strs(h.args@));
        if p.enabled {
            let ghost hs = p.hooks@;
            let mut j: usize = 0;
            assert(hs.take(0) =~= Seq::<PluginHook>::empty());
            assert(r@.map_values(g) =~= (base + hs.take(0).filter(f)).map_values(g));
            while j < p.hooks.len()
                invariant
                    j <= p.hooks.len(),
                    hs == p.hooks@,
                    f == (|h: PluginHook| h.event@ == event@),
                    g == (|h: PluginHook| (h.event@, h.command@, strs(h.args@))),
                    r@.map_values(g) == (base + hs.take(j as int).filter(f)).map_values(g),
                decreases p.hooks.len() - j,
            {
                assert(hs.take(j + 1).drop_last() =~= hs.take(j as int));
                assert(hs.take(j + 1).last() == hs[j as int]);
                reveal_with_fuel(Seq::filter, 1);
                if str_eq(p.hooks[j].event.as_str(), event) {
                    let ghost before = r@.map_values(g);
                    let c = copy_hook(&p.hooks[j]);
                    r.push(c);
                    assert(r@.map_values(g) =~= before.push(g(hs[j as int])));
                    assert((base + hs.take(j + 1).filter(f)) =~= (base + hs.take(j as int).filter(f)).push(hs[j as int]));
                    assert(r@.map_values(g) =~= (base + hs.take(j + 1).filter(f)).map_values(g));
                } else {
                    assert(hs.take(j + 1).filter(f) =~= hs.take(j as int).filter(f));
                }
                j = j + 1;
            }
            assert(hs.take(p.hooks.len() as int) =~= hs);
        } else {
            assert(base + Seq::<PluginHook>::empty() =~= base);
        }
        i = i + 1;
    }
    r
}

/// The environment a hook runs with for a memory: its id, key, kind, content and tags
/// (joined with commas).
pub fn hook_env(m: &Memory) -> (r: Vec<(String, String)>)
    ensures
        r@.map_values(|p: (String, String)| (p.0@, p.1@)) == seq![
            ("PMEM_MEMORY_ID"@, m.id@),
            ("PMEM_MEMORY_KEY"@, m.key@),
            ("PMEM_MEMORY_KIND"@, kind_name(m.kind)),
            ("PMEM_MEMORY_CONTENT"@, m.content@),
            ("PMEM_MEMORY_TAGS"@, join(strs(m.tags@), ","@)),
        ],
{
    let mut r: Vec<(String, String)> = Vec::new();
    r.push((owned("PMEM_MEMORY_ID"), m.id.clone()));
    r.push((owned("PMEM_MEMORY_KEY"), m.key.clone()));
    r.push((owned("PMEM_MEMORY_KIND"), m.kind.to_string()));
    r.push((owned("PMEM_MEMORY_CONTENT"), m.content.clone()));
    r.push((owned("PMEM_MEMORY_TAGS"), join_strings(m.tags.as_slice(), ",")));
    assert(r@.map_values(|p: (String, String)| (p.0@, p.1@)) =~= seq![
        ("PMEM_MEMORY_ID"@, m.id@),
        ("PMEM_MEMORY_KEY"@, m.key@),
        ("PMEM_MEMORY_KIND"@, kind_name(m.kind)),
        ("PMEM_MEMORY_CONTENT"@, m.content@),
        ("PMEM_MEMORY_TAGS"@, join(strs(m.tags@), ","@)),
    ]);
    r
}

} // verus!
