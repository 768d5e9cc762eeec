//! Settings of a project and where its files live under the project directory.

use vstd::prelude::*;
use crate::text::{append_str, owned};

verus! {

/// `Path::join` with a relative part on Unix: the part after a separator, which is
/// added unless the base is empty or already ends with one.
pub open spec fn path_join(base: Seq<char>, part: Seq<char>) -> Seq<char> {
    if base.len() == 0 {
        part
    } else if base.last() == '/' {
        base + part
    } else {
        base + "/"@ + part
    }
}

/// Joins a relative part to a path.
pub fn join_path(base: &str, part: &str) -> (r: String)
    ensures
        r@ == path_join(base@, part@),
{
    let cs = crate::text::chars_of(base);
    if cs.len() == 0 {
        return owned(part);
    }
    let mut r = owned(base);
    if cs[cs.len() - 1] != '/' {
        append_str(&mut r, "/");
    }
    append_str(&mut r, part);
    r
}

/// The directory that holds a project's memory files.
pub open spec fn memory_dir(project: Seq<char>) -> Seq<char> {
    path_join(project, ".memory"@)
}

/// The settings of a project.
#[derive(Debug, Clone)]
pub struct Config {
    pub max_results: usize,
    pub mcp_port: u16,
    pub default_tags: Vec<String>,
    pub auto_link: bool,
    pub fuzzy_search: bool,
}

impl Default for Config {
    /// Fifty results, port 3777, no default tags, no automatic links, fuzzy search on.
    fn default() -> (c: Config)
        ensures
            c.max_results == 50,
            c.mcp_port == 3777,
            c.default_tags@.len() == 0,
            !c.auto_link,
            c.fuzzy_search,
    {
        Config {max_results: 50, mcp_port: 3777, default_tags: Vec::new(), auto_link: false, fuzzy_search: true }
    }
}

impl Config {
    /// Where a project's settings are kept: `.memory/config.toml` under the project.
    pub fn config_path(project_dir: &str) -> (r: String)
        ensures
            r@ == path_join(memory_dir(project_dir@), "config.toml"@),
    {
        let d = join_path(project_dir, ".memory");
        join_path(d.as_str(), "config.toml")
    }
}

/// Where a project's snapshots are kept: `.memory/snapshots` under the project.
pub fn snapshots_dir(project_dir: &str) -> (r: String)
    ensures
        r@ == path_join(memory_dir(project_dir@), "snapshots"@),
{
    let d = join_path(project_dir, ".memory");
    join_path(d.as_str(), "snapshots")
}

} // verus!
