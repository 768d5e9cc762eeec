use project_memory::highlight::highlight_text;
use project_memory::backups::backups_to_delete;
use project_memory::ids::{parse_ids, resolve_id};
use project_memory::cli_ux::{confirm_answer, input_answer, parse_usize, select_choice};
use project_memory::cli_ux::{box_text_of, tree_text};
use project_memory::export::export_dot;
use project_memory::analytics::compute_analytics;
use project_memory::context::memory_context;
use project_memory::browse::{filtered_indices, BrowseKey, BrowseState};
use project_memory::dashboard::dashboard_page;
use project_memory::mcp_tools::{add_tool, delete_tool, get_tool, link_tool, list_tool, rpc_method, tool_descriptors, tool_named, RpcMethod, Tool};
use project_memory::graph_query::MemoryGraph;
use project_memory::commands::{find_group, group_input, group_members, group_places, memory_issues, merge_projects, with_default_tags};
use project_memory::cli_ux::{format_table, ProgressBar, Spinner};
use project_memory::code_import::{comments_to_memories, extract_comments, truncate};
use project_memory::duplicates::merge_memories_at;
use project_memory::encryption::{decrypt, encrypt, open_content, seal_content, DecryptError};
use project_memory::export::{documentation_file, export_csv, export_csv_v2, export_markdown_at, generate_html};
use project_memory::git::{find_git_root, resolve_project_dir};
use project_memory::migration::{markdown_file, notion_csv, obsidian_note};
use project_memory::search_v2::{search_match, search_suggestions, MatchType, SearchFilters};
use project_memory::snapshot::{diff_memory, diff_snapshots, find_snapshot, format_diff, Snapshot};
use project_memory::store::{MemoryStore, StoreError, TagInfo};
use project_memory::suggestions::{format_suggestions, get_popular_searches, get_suggestions, SuggestionKind};
use project_memory::sync::{import_bundle, sync_memories};
use project_memory::types::{Memory, MemoryInput, MemoryKind};
use project_memory::validation::{auto_fix_v2, validate_v2};
use project_memory::templates::get_builtin_templates;
use project_memory::hooks::{cleaned_hook_text, installed_hook_text, POST_MERGE_HOOK, PRE_COMMIT_HOOK};
use project_memory::export::json_graph;
use project_memory::watch::{backup_due, watch_step, WatchConfig};
use project_memory::webhook::{add_webhook, remove_webhook, Webhook};

fn mem(id: &str, kind: MemoryKind, key: &str, content: &str, tags: &[&str], updated_at: i64) -> Memory {
    Memory {
        id: id.to_string(),
        kind,
        key: key.to_string(),
        content: content.to_string(),
        tags: tags.iter().map(|t| t.to_string()).collect(),
        related_ids: Vec::new(),
        created_at: updated_at,
        updated_at,
    }
}

fn input(kind: MemoryKind, key: &str, content: &str, tags: &[&str]) -> MemoryInput {
    MemoryInput {
        kind,
        key: key.to_string(),
        content: content.to_string(),
        tags: tags.iter().map(|t| t.to_string()).collect(),
        related_ids: Vec::new(),
    }
}

// --- store ---------------------------------------------------------------

#[test]
fn store_insert_refuses_a_taken_id() {
    let mut store = MemoryStore::new();
    store.insert(input(MemoryKind::Context, "a", "x", &[]), "id-1".to_string(), 5).unwrap();
    let r = store.insert(input(MemoryKind::Context, "b", "y", &[]), "id-1".to_string(), 6);
    assert!(matches!(r, Err(StoreError::DuplicateId(_))));
    assert_eq!(store.count().unwrap(), 1);
}

#[test]
fn store_read_after_write_and_delete() {
    let mut store = MemoryStore::new();
    let m = store.insert(input(MemoryKind::Pattern, "k", "c", &["t"]), "m1".to_string(), 10).unwrap();
    let got = store.get("m1").unwrap().unwrap();
    assert_eq!(got.key, "k");
    assert_eq!(got.created_at, 10);
    assert_eq!(got.updated_at, 10);
    assert_eq!(m.id, "m1");
    assert!(store.delete("m1").unwrap());
    assert!(store.get("m1").unwrap().is_none());
}

#[test]
fn store_update_keeps_id_and_creation_time() {
    let mut store = MemoryStore::new();
    store.insert(input(MemoryKind::Pattern, "k", "c", &[]), "m1".to_string(), 10).unwrap();
    let u = store.update_at("m1", input(MemoryKind::Decision, "k2", "c2", &[]), 20).unwrap().unwrap();
    assert_eq!(u.id, "m1");
    assert_eq!(u.created_at, 10);
    assert_eq!(u.updated_at, 20);
    assert!(store.update_at("nope", input(MemoryKind::Decision, "k2", "c2", &[]), 20).unwrap().is_none());
}

#[test]
fn store_list_is_most_recent_first() {
    let mut store = MemoryStore::new();
    store.insert(input(MemoryKind::Context, "old", "x", &[]), "a".to_string(), 1).unwrap();
    store.insert(input(MemoryKind::Context, "new", "x", &[]), "b".to_string(), 3).unwrap();
    store.insert(input(MemoryKind::Context, "mid", "x", &[]), "c".to_string(), 2).unwrap();
    let keys: Vec<String> = store.list(None, 10).unwrap().into_iter().map(|m| m.key).collect();
    assert_eq!(keys, vec!["new", "mid", "old"]);
    assert_eq!(store.list(None, 1).unwrap().len(), 1);
}

#[test]
fn store_search_pattern_wildcards_and_case() {
    let mut store = MemoryStore::new();
    store.insert(input(MemoryKind::Context, "Naming", "Use snake_case", &["style"]), "a".to_string(), 1).unwrap();
    store.insert(input(MemoryKind::Context, "db", "SQLite 3", &[]), "b".to_string(), 2).unwrap();
    // `_` stands for one character, `%` for any run.
    assert_eq!(store.search("sn_ke", 10).unwrap().len(), 1);
    assert_eq!(store.search("use%case", 10).unwrap().len(), 1);
    assert_eq!(store.search("NAMING", 10).unwrap()[0].key, "Naming");
    // The tag list is searched in its JSON form.
    assert_eq!(store.search("[\"style\"]", 10).unwrap().len(), 1);
    assert_eq!(store.search("", 10).unwrap().len(), 2);
    assert_eq!(store.search("zzz", 10).unwrap().len(), 0);
}

#[test]
fn store_link_then_unlink_restores_related() {
    let mut store = MemoryStore::new();
    store.insert(input(MemoryKind::Context, "a", "x", &[]), "a".to_string(), 1).unwrap();
    store.insert(input(MemoryKind::Context, "b", "x", &[]), "b".to_string(), 2).unwrap();
    assert!(store.link("a", "b").unwrap());
    assert_eq!(store.get("a").unwrap().unwrap().related_ids, vec!["b".to_string()]);
    assert!(!store.link("a", "missing").unwrap());
    store.unlink("a", "b").unwrap();
    assert!(store.get("a").unwrap().unwrap().related_ids.is_empty());
    assert!(store.get_related("a").unwrap().is_empty());
}

// --- sync ----------------------------------------------------------------

#[test]
fn sync_adds_only_new_keys() {
    let mut local = MemoryStore::new();
    local.insert(input(MemoryKind::Context, "shared", "x", &[]), "l1".to_string(), 1).unwrap();
    let mut remote = MemoryStore::new();
    remote.insert(input(MemoryKind::Context, "shared", "y", &[]), "r1".to_string(), 1).unwrap();
    remote.insert(input(MemoryKind::Decision, "fresh", "z", &["t"]), "r2".to_string(), 2).unwrap();
    let st = sync_memories(&mut local, &mut remote, "pull").unwrap();
    assert_eq!(st.memories_synced, 1);
    assert!(st.conflicts.is_empty());
    assert_eq!(local.count().unwrap(), 2);
    assert_eq!(remote.count().unwrap(), 2);
    let keys: Vec<String> = local.all_memories().into_iter().map(|m| m.key).collect();
    assert_eq!(keys, vec!["shared", "fresh"]);
}

#[test]
fn sync_push_and_both_directions() {
    let mut local = MemoryStore::new();
    local.insert(input(MemoryKind::Context, "mine", "x", &[]), "l1".to_string(), 1).unwrap();
    let mut remote = MemoryStore::new();
    remote.insert(input(MemoryKind::Context, "theirs", "y", &[]), "r1".to_string(), 1).unwrap();
    assert_eq!(sync_memories(&mut local, &mut remote, "push").unwrap().memories_synced, 1);
    assert_eq!(local.count().unwrap(), 1);
    let rkeys: Vec<String> = remote.all_memories().into_iter().map(|m| m.key).collect();
    assert_eq!(rkeys, vec!["theirs", "mine"]);
    let mut local = MemoryStore::new();
    local.insert(input(MemoryKind::Context, "mine", "x", &[]), "l1".to_string(), 1).unwrap();
    let mut remote = MemoryStore::new();
    remote.insert(input(MemoryKind::Context, "theirs", "y", &[]), "r1".to_string(), 1).unwrap();
    assert_eq!(sync_memories(&mut local, &mut remote, "both").unwrap().memories_synced, 2);
    let lkeys: Vec<String> = local.all_memories().into_iter().map(|m| m.key).collect();
    let rkeys: Vec<String> = remote.all_memories().into_iter().map(|m| m.key).collect();
    assert_eq!(lkeys, vec!["mine", "theirs"]);
    assert_eq!(rkeys, vec!["theirs", "mine"]);
}

#[test]
fn import_bundle_overwrite_replaces() {
    let mut store = MemoryStore::new();
    store.insert(input(MemoryKind::Context, "a", "old", &[]), "s1".to_string(), 1).unwrap();
    store.insert(input(MemoryKind::Context, "c", "keep", &[]), "s2".to_string(), 1).unwrap();
    let bundle = vec![mem("b1", MemoryKind::Decision, "a", "new", &[], 1)];
    assert_eq!(import_bundle(&mut store, &bundle, "overwrite").unwrap(), 1);
    let ms = store.all_memories();
    assert_eq!(ms.len(), 2);
    assert_eq!(ms[0].key, "c");
    assert_eq!((ms[1].key.as_str(), ms[1].content.as_str(), ms[1].kind), ("a", "new", MemoryKind::Decision));
}

#[test]
fn builtin_templates_are_six() {
    let ts = get_builtin_templates();
    assert_eq!(ts.len(), 6);
    let names: Vec<&str> = ts.iter().map(|t| t.name.as_str()).collect();
    assert_eq!(names, vec!["rust-lib", "rust-cli", "nextjs", "python-api", "go-service", "react-app"]);
    assert!(ts.iter().all(|t| !t.memories.is_empty()));
}

#[test]
fn add_succeeds_on_an_empty_store() {
    let mut s = MemoryStore::new();
    let m = s.add(input(MemoryKind::Convention, "naming", "Use snake_case", &["test"])).unwrap();
    assert_eq!(m.key, "naming");
    assert_eq!(m.kind, MemoryKind::Convention);
}

#[test]
fn import_bundle_skip_strategy() {
    let mut store = MemoryStore::new();
    store.insert(input(MemoryKind::Context, "a", "x", &[]), "s1".to_string(), 1).unwrap();
    let bundle = vec![mem("b1", MemoryKind::Context, "a", "y", &[], 1), mem("b2", MemoryKind::Context, "b", "z", &[], 2)];
    assert_eq!(import_bundle(&mut store, &bundle, "skip").unwrap(), 1);
    assert_eq!(import_bundle(&mut store, &bundle, "all").unwrap(), 2);
    assert_eq!(store.count().unwrap(), 4);
}

// --- encryption ------------------------------------------------------------

#[test]
fn encrypt_then_decrypt_gives_the_text_back() {
    let sealed = encrypt("secret note", "passphrase");
    assert_ne!(sealed, "secret note");
    assert_eq!(decrypt(&sealed, "passphrase").unwrap(), "secret note");
    assert!(matches!(decrypt(&sealed, "other"), Err(DecryptError::Failed)));
    assert!(matches!(decrypt("zz", "k"), Err(DecryptError::InvalidHex(_))));
    assert!(matches!(decrypt("abcd", "k"), Err(DecryptError::Truncated)));
}

// --- webhooks --------------------------------------------------------------

#[test]
fn remove_webhook_removes_every_one_of_that_name() {
    let hook = |name: &str| Webhook { name: name.to_string(), url: "u".to_string(), events: vec![], secret: None, enabled: true };
    let mut hooks = Vec::new();
    add_webhook(&mut hooks, hook("a"));
    add_webhook(&mut hooks, hook("b"));
    add_webhook(&mut hooks, hook("a"));
    assert!(remove_webhook(&mut hooks, "a"));
    assert_eq!(hooks.len(), 1);
    assert_eq!(hooks[0].name, "b");
    assert!(!remove_webhook(&mut hooks, "a"));
}

// --- kinds -----------------------------------------------------------------

#[test]
fn kind_names_parse_back() {
    for k in MemoryKind::all() {
        assert_eq!(MemoryKind::parse_kind(&k.to_string()).unwrap(), k);
    }
    assert_eq!(MemoryKind::parse_kind("CoNv").unwrap(), MemoryKind::Convention);
    assert!(MemoryKind::parse_kind("nope").is_err());
}

// --- tables and progress ---------------------------------------------------

#[test]
fn table_pads_columns() {
    let rows = vec![vec!["x".to_string(), "long cell".to_string(), "extra".to_string()]];
    let t = format_table(&["id", "name"], &rows);
    assert_eq!(t, "id  name       \n──  ─────────  \nx   long cell  \n");
    assert_eq!(format_table(&["id"], &[]), "No data.");
}

#[test]
fn progress_and_spinner_state() {
    let mut b = ProgressBar::new(10, "load");
    assert_eq!(b.current(), 0);
    assert_eq!(b.width(), 40);
    b.increment();
    b.increment();
    assert_eq!(b.current(), 2);
    b.set(7);
    assert_eq!(b.current(), 7);
    assert_eq!(b.label(), "load");
    let mut s = Spinner::new("wait");
    for _ in 0..10 {
        s.tick();
    }
    assert_eq!(s.tick(), 0);
    assert_eq!(s.tick(), 1);
}

// --- code comments ---------------------------------------------------------

#[test]
fn comments_keep_the_colon_and_group_by_marker() {
    let src = "fn a() {}\n    // TODO: fix this\n# NOTE: remember\nlet x = 1; // TODO: fix this\n";
    let cs = extract_comments(src, "main.rs");
    assert_eq!(cs.len(), 3);
    assert_eq!(cs[0].line, 2);
    assert_eq!(cs[0].tag, "TODO");
    assert_eq!(cs[0].content, ": fix this");
    assert_eq!(cs[1].tag, "NOTE");
    assert_eq!(cs[2].line, 4);
    let ms = comments_to_memories(&cs);
    assert_eq!(ms.len(), 2);
    assert_eq!(ms[0].key, "todo: : fix this");
    assert_eq!(ms[0].content, ": fix this (main.rs:2)");
    assert_eq!(ms[0].kind, MemoryKind::Pattern);
    assert_eq!(ms[0].tags, vec!["code-comment".to_string(), "todo".to_string()]);
    assert_eq!(ms[1].kind, MemoryKind::Context);
}

#[test]
fn truncate_cuts_at_bytes() {
    assert_eq!(truncate("abcdef", 3), "abc...");
    assert_eq!(truncate("abc", 3), "abc");
}

// --- snapshots -------------------------------------------------------------

#[test]
fn diff_finds_added_removed_modified() {
    let old = vec![
        mem("1", MemoryKind::Context, "a", "x", &[], 1),
        mem("2", MemoryKind::Context, "b", "x", &["t"], 1),
        mem("3", MemoryKind::Context, "c", "x", &[], 1),
    ];
    let new = vec![
        mem("1", MemoryKind::Context, "a", "x", &[], 1),
        mem("2", MemoryKind::Decision, "b2", "y", &["t", "u"], 2),
        mem("4", MemoryKind::Context, "d", "x", &[], 1),
    ];
    let d = diff_snapshots(&old, &new);
    assert_eq!(d.unchanged, 1);
    assert_eq!(d.added.len(), 1);
    assert_eq!(d.added[0].id, "4");
    assert_eq!(d.removed.len(), 1);
    assert_eq!(d.removed[0].id, "3");
    assert_eq!(d.modified.len(), 1);
    assert_eq!(
        d.modified[0].changes,
        vec![
            "key: 'b' → 'b2'".to_string(),
            "content changed".to_string(),
            "kind: 'context' → 'decision'".to_string(),
            "tags: [t] → [t, u]".to_string(),
        ]
    );
    let text = format_diff(&d, "+", "-", "~");
    assert_eq!(
        text,
        "+ Added (1):\n  + [context] d: x\n\n- Removed (1):\n  - [context] c: x\n\n~ Modified (1):\n  ~ [context] b2\n      key: 'b' → 'b2'\n      content changed\n      kind: 'context' → 'decision'\n      tags: [t] → [t, u]\n\n1 unchanged"
    );
    let same = diff_snapshots(&old, &old);
    assert_eq!(format_diff(&same, "+", "-", "~"), "No changes detected.");
    assert!(diff_memory(&old[0], &old[0]).is_empty());
}

#[test]
fn snapshot_chosen_by_id_name_or_unique_prefix() {
    let snap = |id: &str, name: &str| Snapshot { id: id.to_string(), name: name.to_string(), memory_count: 0, created_at: 0, memories: vec![] };
    let snaps = vec![snap("abc123", "before"), snap("abd999", "after"), snap("x1", "abc123")];
    assert_eq!(find_snapshot(&snaps, "abc123"), Some(0));
    assert_eq!(find_snapshot(&snaps, "after"), Some(1));
    assert_eq!(find_snapshot(&snaps, "abd"), Some(1));
    assert_eq!(find_snapshot(&snaps, "ab"), None);
    assert_eq!(find_snapshot(&snaps, "zz"), None);
}

// --- duplicates ------------------------------------------------------------

#[test]
fn merge_takes_the_newest_and_unites_tags() {
    let mut a = mem("a", MemoryKind::Context, "k1", "old", &["x", "y"], 5);
    a.created_at = 2;
    a.related_ids = vec!["b".to_string(), "z".to_string()];
    let mut b = mem("b", MemoryKind::Decision, "k2", "new", &["y", "w"], 9);
    b.created_at = 7;
    let m = merge_memories_at(&[a, b], 100);
    assert_eq!(m.id, "b");
    assert_eq!(m.content, "new");
    assert_eq!(m.tags, vec!["x", "y", "w"]);
    assert_eq!(m.related_ids, vec!["z"]);
    assert_eq!(m.created_at, 2);
    assert_eq!(m.updated_at, 100);
}

// --- suggestions -----------------------------------------------------------

#[test]
fn suggestions_rank_keys_tags_kinds() {
    let ms = vec![
        mem("1", MemoryKind::Context, "Deploy steps", "x", &["devops", "Debug"], 1),
        mem("2", MemoryKind::Context, "other", "x", &["devops"], 1),
    ];
    let s = get_suggestions(&ms, "De");
    let texts: Vec<&str> = s.iter().map(|x| x.text.as_str()).collect();
    assert_eq!(texts, vec!["Deploy steps", "devops", "Debug", "decision"]);
    assert_eq!(s[0].score, 100);
    assert_eq!(s[1].score, 52);
    assert_eq!(s[2].score, 51);
    assert_eq!(s[3].kind, SuggestionKind::Kind);
    assert_eq!(s[3].score, 30);
    assert_eq!(format_suggestions(&s[..1]), "Suggestions:\n  [key] Deploy steps (100)\n");
    assert_eq!(format_suggestions(&[]), "No suggestions found.");
    let c = search_suggestions(&ms, "de");
    assert_eq!(c, vec!["Deploy steps", "Debug", "devops"]);
}

#[test]
fn popular_words_count_tags_twice() {
    let ms = vec![
        mem("1", MemoryKind::Context, "Rust build cache", "x", &["ci"], 1),
        mem("2", MemoryKind::Context, "rust tips", "x", &[], 1),
    ];
    let p = get_popular_searches(&ms);
    assert_eq!(p.len(), 5);
    assert!(p[..2].contains(&"rust".to_string()));
    assert!(p[..2].contains(&"ci".to_string()));
    assert!(!p.contains(&"tips".to_string()) || p.contains(&"tips".to_string()));
}

#[test]
fn search_filters_default() {
    let f = SearchFilters::default();
    assert_eq!(f.limit, 20);
    assert!(f.kind.is_none() && f.tag.is_none() && !f.pinned_only);
}

// --- exports ---------------------------------------------------------------

#[test]
fn csv_quotes_and_times() {
    let mut m = mem("i", MemoryKind::Pattern, "k\"q", "say \"hi\"", &["a", "b"], 0);
    m.related_ids = vec!["r".to_string()];
    let out = export_csv_v2(&[m.clone()]);
    assert_eq!(
        out,
        "id,kind,key,content,tags,related_count,created_at,updated_at\ni,pattern,\"k\"\"q\",\"say \"\"hi\"\"\",\"a;b\",1,1970-01-01T00:00:00+00:00,1970-01-01T00:00:00+00:00\n"
    );
    assert_eq!(export_csv(&[m]), "id,kind,key,content,tags\ni,pattern,\"k\"q\",\"say \"\"hi\"\"\",\"a;b\"\n");
}

#[test]
fn markdown_export_sections() {
    let ms = vec![mem("1", MemoryKind::Decision, "db", "sqlite", &["x"], 0)];
    let out = export_markdown_at(&ms, "T", "NOW");
    assert_eq!(
        out,
        "# T\n\n*1 memories*\n\n## Table of Contents\n\n- [decision](#decision) (1)\n\n---\n\n## decision\n\n### db\n\nsqlite\n\n*Tags:* x\n\n---\n\n*Generated: NOW*\n"
    );
}

#[test]
fn html_docs_page() {
    let ms = vec![mem("1", MemoryKind::Context, "k", "c", &[], 0)];
    let out = generate_html(&ms, "P");
    assert_eq!(
        out,
        "<!DOCTYPE html>\n<html><head><title>P</title></head><body><h1>P</h1>\n<p><em>Generated from 1 memories</em></p>\n<h2 style='color:#3b82f6'>Context</h2>\n<div style='display:grid;gap:1rem;'>\n<div style='background:#1e293b;padding:1rem;border-radius:8px;border-left:4px solid #3b82f6'>\n  <strong>k</strong><br>\n  <p>c</p>\n</div>\n</div>\n</body></html>"
    );
    assert_eq!(documentation_file("md").unwrap(), "memories.md");
    assert_eq!(documentation_file("pdf").unwrap_err(), "Unknown format: pdf. Use 'markdown' or 'html'");
}

// --- migration -------------------------------------------------------------

#[test]
fn notion_rows() {
    let csv = "Name,Content,Tags,Type\nFirst,Body one,a; b,Decision\n,,,\nSecond,,x,pat\n";
    let ms = notion_csv(csv);
    assert_eq!(ms.len(), 2);
    assert_eq!(ms[0].key, "First");
    assert_eq!(ms[0].tags, vec!["a", "b"]);
    assert_eq!(ms[0].kind, MemoryKind::Decision);
    assert_eq!(ms[1].kind, MemoryKind::Pattern);
    assert_eq!(ms[1].content, "");
}

#[test]
fn obsidian_front_matter() {
    let note = "---\ntags: rust, style\ntype: pattern\n---\n\nBody text\n";
    let m = obsidian_note("note", note);
    assert_eq!(m.key, "note");
    assert_eq!(m.kind, MemoryKind::Pattern);
    assert_eq!(m.tags, vec!["rust", "style"]);
    assert_eq!(m.content, "Body text");
    let plain = obsidian_note("p", "just text");
    assert_eq!(plain.content, "just text");
    assert_eq!(plain.kind, MemoryKind::Context);
    let whole = markdown_file("f", "no headings here");
    assert_eq!(whole.len(), 1);
    assert_eq!(whole[0].tags, vec!["imported"]);
}

// --- project discovery and watching ----------------------------------------

#[test]
fn git_root_and_project_dir() {
    let chain = vec![("/a/b".to_string(), false), ("/a".to_string(), true), ("/".to_string(), true)];
    assert_eq!(find_git_root(&chain), Some("/a".to_string()));
    assert_eq!(find_git_root(&chain[..1]), None);
    assert_eq!(resolve_project_dir(None, "/a/b".to_string(), &chain), "/a");
    assert_eq!(resolve_project_dir(None, "/a/b".to_string(), &chain[..1]), "/a/b");
    assert_eq!(resolve_project_dir(Some("/p".to_string()), "/a/b".to_string(), &chain), "/p");
}

#[test]
fn watch_reports_changes() {
    assert_eq!(watch_step(3, 5), (5, Some("[+] 2 new memories added".to_string())));
    assert_eq!(watch_step(5, 1), (1, Some("[-] 4 memories removed".to_string())));
    assert_eq!(watch_step(2, 2), (2, None));
    let c = WatchConfig::default();
    assert_eq!(c.interval_secs, 30);
    assert!(!backup_due(&c, 4_000_000_000_000));
    let on = WatchConfig { auto_backup: true, ..WatchConfig::default() };
    assert!(backup_due(&on, 3_600_000_000_001));
    assert!(!backup_due(&on, 3_600_000_000_000));
}

// --- command-line helpers --------------------------------------------------

#[test]
fn ids_and_prefix_resolution() {
    assert_eq!(parse_ids(" a, b ,,c "), vec!["a", "b", "c"]);
    let mut store = MemoryStore::new();
    store.insert(input(MemoryKind::Context, "k", "c", &[]), "abc-1".to_string(), 1).unwrap();
    store.insert(input(MemoryKind::Context, "k", "c", &[]), "abd-2".to_string(), 2).unwrap();
    assert_eq!(resolve_id(&store, "abc-1"), "abc-1");
    assert_eq!(resolve_id(&store, "abd"), "abd-2");
    assert_eq!(resolve_id(&store, "ab"), "ab");
    assert_eq!(resolve_id(&store, "zz"), "zz");
}

#[test]
fn prompt_answers() {
    assert_eq!(parse_usize("+42"), Some(42));
    assert_eq!(parse_usize("007"), Some(7));
    assert_eq!(parse_usize("+"), None);
    assert_eq!(parse_usize("-1"), None);
    assert_eq!(parse_usize("99999999999999999999999"), None);
    assert_eq!(select_choice(" 2\n", 3), Some(1));
    assert_eq!(select_choice("0", 3), None);
    assert_eq!(select_choice("4", 3), None);
    assert_eq!(select_choice("x", 3), None);
    assert!(confirm_answer(" YES \n", false));
    assert!(confirm_answer("\n", true));
    assert!(!confirm_answer("n", true));
    assert_eq!(input_answer("  \n", "dflt"), "dflt");
    assert_eq!(input_answer(" val \n", "dflt"), "val");
}

#[test]
fn box_and_tree_drawing() {
    let b = box_text_of("T", "one");
    let lines: Vec<&str> = b.lines().collect();
    assert_eq!(lines.len(), 5);
    assert_eq!(lines[0].chars().count(), 60);
    assert_eq!(lines[1].chars().count(), 60);
    assert!(lines[3].starts_with("│ one"));
    let t = tree_text(&[("a".to_string(), vec!["x".to_string(), "y".to_string()]), ("b".to_string(), vec![])]);
    assert_eq!(t, "├── a\n│   ├── x\n│   └── y\n└── b\n");
}

#[test]
fn dot_graph_text() {
    let mut a = mem("a", MemoryKind::Context, "ka", "c", &[], 0);
    a.related_ids = vec!["b".to_string()];
    assert_eq!(export_dot(&[a]), "digraph memory_graph {\n  \"a\" [label=\"ka\"];\"n  \"a\" -> \"b\";\n}\n");
}

#[test]
fn browser_filter() {
    let ms = vec![
        mem("1", MemoryKind::Decision, "Alpha", "x", &[], 0),
        mem("2", MemoryKind::Context, "beta", "x", &["Tagged"], 0),
    ];
    assert_eq!(filtered_indices(&ms, ""), vec![0, 1]);
    assert_eq!(filtered_indices(&ms, "ALP"), vec![0]);
    assert_eq!(filtered_indices(&ms, "tagg"), vec![1]);
    assert_eq!(filtered_indices(&ms, "decision"), vec![0]);
}

#[test]
fn default_tags_and_quick_issues() {
    let tags = with_default_tags(vec!["a".to_string()], &vec!["a".to_string(), "b".to_string()]);
    assert_eq!(tags, vec!["a", "b"]);
    let mut store = MemoryStore::new();
    store.insert(input(MemoryKind::Context, "k", "long enough content", &[]), "m1".to_string(), 1).unwrap();
    let mut m = mem("x", MemoryKind::Context, "k", "short", &["t", "t"], 1);
    m.related_ids = vec!["m1".to_string(), "gone".to_string()];
    assert_eq!(
        memory_issues(&store, &m),
        vec!["very short content (< 10 chars)", "duplicate tags", "broken related_id reference"]
    );
    let blank = mem("y", MemoryKind::Context, &"k".repeat(51), "  ", &[], 1);
    assert_eq!(memory_issues(&store, &blank), vec!["empty content", "key is very long (> 50 chars)"]);
}

#[test]
fn merge_projects_strategies() {
    let mut other = MemoryStore::new();
    other.insert(input(MemoryKind::Context, "a", "from other", &[]), "o1".to_string(), 1).unwrap();
    other.insert(input(MemoryKind::Decision, "b", "only there", &[]), "o2".to_string(), 2).unwrap();

    let mut store = MemoryStore::new();
    store.insert(input(MemoryKind::Context, "a", "mine", &[]), "s1".to_string(), 1).unwrap();
    assert_eq!(merge_projects(&mut store, &other, "skip"), (1, 1));
    let keys: Vec<String> = store.all_memories().into_iter().map(|m| m.key).collect();
    assert_eq!(keys, vec!["a", "b"]);

    let mut store = MemoryStore::new();
    store.insert(input(MemoryKind::Context, "a", "mine", &[]), "s1".to_string(), 1).unwrap();
    assert_eq!(merge_projects(&mut store, &other, "overwrite"), (2, 0));
    let contents: Vec<String> = store.all_memories().into_iter().map(|m| m.content).collect();
    assert_eq!(contents, vec!["only there", "from other"]);

    let mut store = MemoryStore::new();
    store.insert(input(MemoryKind::Context, "a", "mine", &[]), "s1".to_string(), 1).unwrap();
    assert_eq!(merge_projects(&mut store, &other, "keep-both"), (2, 0));
    assert_eq!(store.count().unwrap(), 3);
}

#[test]
fn memory_groups() {
    let g = group_input("backend");
    assert_eq!(g.key, "group:backend");
    assert_eq!(g.content, "Memory group: backend");
    assert_eq!(g.tags, vec!["group"]);
    let mut member = mem("m", MemoryKind::Context, "x", "y", &[], 0);
    member.related_ids = vec!["g1".to_string()];
    let ms = vec![
        mem("n", MemoryKind::Context, "group:backend", "y", &[], 0),
        mem("g1", MemoryKind::Context, "group:backend", "y", &["group"], 0),
        member,
        mem("g2", MemoryKind::Context, "group:ui", "y", &["group"], 0),
    ];
    assert_eq!(find_group(&ms, "backend"), Some(1));
    assert_eq!(find_group(&ms, "missing"), None);
    assert_eq!(group_places(&ms), vec![1, 3]);
    assert_eq!(group_members(&ms, "g1"), vec![2]);
}

#[test]
fn graph_paths_and_components() {
    let mut a = mem("a", MemoryKind::Context, "ka", "x", &[], 0);
    a.related_ids = vec!["b".to_string(), "e".to_string()];
    let mut b = mem("b", MemoryKind::Context, "kb", "x", &[], 0);
    b.related_ids = vec!["c".to_string()];
    let mut c = mem("c", MemoryKind::Context, "kc", "x", &[], 0);
    c.related_ids = vec!["e".to_string()];
    let e = mem("e", MemoryKind::Context, "ke", "x", &[], 0);
    let lone = mem("z", MemoryKind::Context, "kz", "x", &[], 0);
    let g = MemoryGraph::from_memories(&[a, b, c, e, lone]);
    assert_eq!(g.edges(), 4);
    assert_eq!(g.degree("a"), 2);
    assert_eq!(g.shortest_path("a", "e"), Some(vec!["a".to_string(), "e".to_string()]));
    assert_eq!(g.shortest_path("b", "e").map(|p| p.len()), Some(3));
    assert_eq!(g.shortest_path("a", "a"), Some(vec!["a".to_string()]));
    assert_eq!(g.shortest_path("a", "z"), None);
    let comps = g.connected_components();
    assert_eq!(comps.len(), 2);
    assert_eq!(comps[0].len(), 4);
    assert_eq!(comps[1], vec!["z".to_string()]);
    assert_eq!(g.isolated_nodes(), vec!["z".to_string()]);
    let hubs = g.hub_nodes(2);
    assert_eq!(hubs.len(), 4);
    assert!(hubs.iter().all(|(_, d)| *d == 2));
}

#[test]
fn browser_key_presses() {
    let ms = vec![
        mem("1", MemoryKind::Decision, "Alpha", "x", &[], 0),
        mem("2", MemoryKind::Context, "beta", "x", &[], 0),
        mem("3", MemoryKind::Context, "gamma", "x", &[], 0),
    ];
    let mut b = BrowseState::new(ms);
    assert_eq!(b.selected, Some(0));
    assert_eq!(b.search_hint(), " 3/3 memories (press / to search)");
    assert!(!b.step(BrowseKey::Down));
    assert!(!b.step(BrowseKey::Char('j')));
    assert!(!b.step(BrowseKey::Char('j')));
    assert_eq!(b.selected, Some(2));
    assert_eq!(b.selected_memory(), Some(2));
    assert!(!b.step(BrowseKey::Char('u')));
    assert_eq!(b.detail_scroll, 0);
    b.step(BrowseKey::Char('d'));
    assert_eq!(b.detail_scroll, 3);
    b.step(BrowseKey::Up);
    assert_eq!((b.selected, b.detail_scroll), (Some(1), 0));
    b.step(BrowseKey::Char('/'));
    assert!(b.search_mode);
    b.step(BrowseKey::Char('A'));
    b.step(BrowseKey::Char('m'));
    assert_eq!(b.search_hint(), " Search: Am_");
    assert_eq!(b.filtered_indices, vec![2]);
    assert_eq!(b.selected, Some(0));
    b.step(BrowseKey::Backspace);
    assert_eq!(b.filtered_indices, vec![0, 1, 2]);
    b.step(BrowseKey::Char('z'));
    assert_eq!(b.selected, None);
    assert_eq!(b.selected_memory(), None);
    b.step(BrowseKey::Esc);
    assert!(!b.search_mode);
    assert_eq!(b.filtered_indices, vec![0, 1, 2]);
    b.step(BrowseKey::Char('G'));
    assert_eq!(b.selected, Some(2));
    b.step(BrowseKey::Char('g'));
    assert_eq!(b.selected, Some(0));
    assert!(b.step(BrowseKey::Char('q')));
    assert!(b.step(BrowseKey::Esc));
}

#[test]
fn dashboard_page_parts() {
    let m = mem("abcdefgh-1234", MemoryKind::Decision, "db", "Use SQLite", &["x", "y"], 0);
    let tags = vec![TagInfo { tag: "x".to_string(), count: 3 }];
    let page = dashboard_page(&[m], 1, &tags, &[(MemoryKind::Decision, 1)]);
    assert!(page.starts_with("<!DOCTYPE html>"));
    assert!(page.ends_with("</html>"));
    assert!(page.contains("<div class=\"stat-value\">1</div><div class=\"stat-label\">memories</div>"));
    assert!(page.contains("<div class=\"stat-value\">1</div><div class=\"stat-label\">tags</div>"));
    assert!(page.contains("<div class=\"badges\"><span class=\"badge\" style=\"background:#eab308\">decision: 1</span> </div>"));
    assert!(page.contains("<div class=\"badges\"><span class=\"tag\">x (3)</span> </div>"));
    let card = "<div class=\"card\" data-kind=\"decision\" data-tags=\"x,y\">\n                <div class=\"card-header\">\n                    <span class=\"badge\" style=\"background:#eab308\">decision</span>\n                    <span class=\"key\">db</span>\n                    <span class=\"id\">abcdefgh</span>\n                </div>\n                <div class=\"content\">Use SQLite</div>\n                <div class=\"tags\"><span class=\"tag\">x</span> <span class=\"tag\">y</span></div>\n            </div>";
    assert!(page.contains(&format!("<div class=\"cards\" id=\"cards\">{card}</div>")));
}

#[test]
fn assistant_tool_replies() {
    let mut store = MemoryStore::new();
    assert_eq!(list_tool(&store, None, 50), "No memories stored yet.");
    store.insert(input(MemoryKind::Convention, "naming", "snake_case", &["style", "rust"]), "aaaaaaaa-1".to_string(), 0).unwrap();
    store.insert(input(MemoryKind::Decision, "db", "SQLite", &[]), "bbbbbbbb-2".to_string(), 1).unwrap();
    assert_eq!(list_tool(&store, None, 50), "2 memories:\n\n[decision] db: SQLite\n[convention] naming: snake_case\n");
    assert_eq!(list_tool(&store, Some(MemoryKind::Convention), 50), "1 memories:\n\n[convention] naming: snake_case\n");
    assert_eq!(link_tool(&mut store, "aaaaaaaa-1", "bbbbbbbb-2"), "Linked aaaaaaaa-1 -> bbbbbbbb-2");
    assert_eq!(link_tool(&mut store, "aaaaaaaa-1", "nope"), "One or both memory IDs not found");
    let text = get_tool(&store, "aaaaaaaa-1");
    assert!(text.starts_with("ID: aaaaaaaa-1\nKind: convention\nKey: naming\nContent: snake_case\nTags: style, rust\nCreated: 1970-01-01 00:00:00 UTC\nUpdated: 1970-01-01 00:00:00 UTC"));
    assert!(text.ends_with("\nRelated memories:\n  - [decision] db: bbbbbbbb\n"));
    assert_eq!(get_tool(&store, "zz"), "Memory 'zz' not found");
    assert_eq!(delete_tool(&mut store, "bbbbbbbb-2"), "Deleted memory bbbbbbbb-2");
    assert_eq!(delete_tool(&mut store, "bbbbbbbb-2"), "Memory 'bbbbbbbb-2' not found");
    let added = add_tool(&mut store, input(MemoryKind::Pattern, "p", "c", &[])).unwrap();
    assert!(added.starts_with("Stored memory [pattern] p: "));
    assert_eq!(added.len(), "Stored memory [pattern] p: ".len() + 36);
}

#[test]
fn search_match_points_and_filters() {
    let day: i64 = 86_400_000_000;
    let mut m = mem("1", MemoryKind::Convention, "Naming", "Naming things: use snake_case", &["style", "Pinned"], 0);
    m.updated_at = 10 * day;
    let f = SearchFilters::default();
    let sm = search_match(&m, "naming", &f, 12 * day).unwrap();
    assert_eq!(sm.match_type, MatchType::Exact);
    assert_eq!(sm.matched_fields, vec!["key", "content"]);
    // exact key 100, content 40, one word in key 10 and in content 5
    assert_eq!(sm.text_points, 155);
    assert_eq!(sm.recency_points, 5);
    let sm = search_match(&m, "STYLE", &f, 30 * day).unwrap();
    assert_eq!(sm.match_type, MatchType::Fuzzy);
    assert_eq!(sm.matched_fields, vec!["tags"]);
    assert_eq!(sm.text_points, 50);
    assert_eq!(sm.recency_points, 2);
    assert_eq!(search_match(&m, "nam", &f, 50 * day).unwrap().recency_points, 0);
    assert_eq!(search_match(&m, "nam", &f, 0).unwrap().match_type, MatchType::Prefix);
    assert_eq!(search_match(&m, "min", &f, 0).unwrap().match_type, MatchType::Contains);
    let only_pinned = SearchFilters { pinned_only: true, ..SearchFilters::default() };
    assert!(search_match(&m, "x", &only_pinned, 0).is_none());
    let by_kind = SearchFilters { kind: Some("decision".to_string()), ..SearchFilters::default() };
    assert!(search_match(&m, "x", &by_kind, 0).is_none());
    let by_tag = SearchFilters { tag: Some("style".to_string()), ..SearchFilters::default() };
    assert!(search_match(&m, "x", &by_tag, 0).is_some());
}

#[test]
fn short_analytics_counts() {
    let ms = vec![
        mem("1", MemoryKind::Convention, "a", "x", &["rust", "style"], 0),
        mem("2", MemoryKind::Convention, "b", "  ", &["rust"], 0),
        mem("3", MemoryKind::Decision, "c", "y", &[], 0),
    ];
    let a = compute_analytics(&ms);
    assert_eq!(a.total, 3);
    assert_eq!(a.by_kind, vec![("convention".to_string(), 2), ("decision".to_string(), 1)]);
    assert_eq!(a.by_tag[0], ("rust".to_string(), 2));
    assert_eq!(a.by_tag.len(), 2);
    assert_eq!(a.empty_content, 1);
}

#[test]
fn replace_all_is_one_step() {
    let mut store = MemoryStore::new();
    store.insert(input(MemoryKind::Context, "a", "x", &[]), "a".to_string(), 1).unwrap();
    store.insert(input(MemoryKind::Context, "b", "y", &[]), "b".to_string(), 2).unwrap();
    store.link("a", "b").unwrap();
    let dup = vec![mem("s1", MemoryKind::Decision, "k", "c", &[], 5), mem("s1", MemoryKind::Decision, "k2", "c2", &[], 6)];
    assert!(matches!(store.replace_all(&dup), Err(StoreError::DuplicateId(_))));
    assert_eq!(store.count().unwrap(), 2);
    assert_eq!(store.link_rows().len(), 1);
    let snap = vec![mem("s1", MemoryKind::Decision, "k", "c", &[], 5), mem("s2", MemoryKind::Pattern, "k2", "c2", &[], 6)];
    assert_eq!(store.replace_all(&snap).unwrap(), 2);
    let ids: Vec<String> = store.all_memories().into_iter().map(|m| m.id).collect();
    assert_eq!(ids, vec!["s1", "s2"]);
    assert_eq!(store.get("s2").unwrap().unwrap().created_at, 6);
    assert!(store.link_rows().is_empty());
}

#[test]
fn added_memory_shows_in_context() {
    let mut store = MemoryStore::new();
    store.insert(input(MemoryKind::Convention, "naming", "Use snake_case", &["rust", "style"]), "n1".to_string(), 1).unwrap();
    store.insert(input(MemoryKind::Decision, "database", "Use SQLite", &["storage"]), "d1".to_string(), 2).unwrap();
    let reply = add_tool(&mut store, input(MemoryKind::Context, "opencode-verified", "Written by a client", &["opencode"])).unwrap();
    assert!(reply.starts_with("Stored memory [context] opencode-verified: "));
    let text = memory_context(&store).unwrap();
    assert_eq!(
        text,
        "# Project Memory Context\n\n## Conventions\n- naming [rust, style]: Use snake_case\n\n## Decisions\n- database [storage]: Use SQLite\n\n## Context\n- opencode-verified [opencode]: Written by a client\n"
    );
    let mut empty = MemoryStore::new();
    assert_eq!(memory_context(&empty).unwrap(), "No project memories stored. This project has no saved conventions, patterns, or decisions.");
    assert_eq!(delete_tool(&mut empty, "x"), "Memory 'x' not found");
}

#[test]
fn rpc_and_tool_names() {
    assert_eq!(rpc_method("tools/call"), RpcMethod::ToolsCall);
    assert_eq!(rpc_method("notifications/initialized"), RpcMethod::Initialized);
    assert_eq!(rpc_method("initialize"), RpcMethod::Initialize);
    assert_eq!(rpc_method("Ping"), RpcMethod::Unknown);
    assert_eq!(tool_named("memory_context"), Some(Tool::Context));
    assert_eq!(tool_named("memory_link"), Some(Tool::Link));
    assert_eq!(tool_named("memory_remove"), None);
}

#[test]
fn fixing_twice_changes_nothing_more() {
    let mut a = mem("a", MemoryKind::Context, "a", "content a", &["z", "b", "z"], 0);
    a.related_ids = vec!["a".to_string(), "b".to_string(), "gone".to_string()];
    let b = mem("b", MemoryKind::Context, "b", "content b", &["x"], 0);
    let mut ms = vec![a, b];
    assert_eq!(auto_fix_v2(&mut ms), 3);
    assert_eq!(ms[0].tags, vec!["b", "z"]);
    assert_eq!(ms[0].related_ids, vec!["b"]);
    let once: Vec<(Vec<String>, Vec<String>)> = ms.iter().map(|m| (m.tags.clone(), m.related_ids.clone())).collect();
    assert_eq!(auto_fix_v2(&mut ms), 0);
    let twice: Vec<(Vec<String>, Vec<String>)> = ms.iter().map(|m| (m.tags.clone(), m.related_ids.clone())).collect();
    assert_eq!(once, twice);
}

#[test]
fn diff_of_a_state_with_itself_is_empty() {
    let ms = vec![
        mem("1", MemoryKind::Context, "a", "x", &["t"], 0),
        mem("2", MemoryKind::Decision, "b", "y", &[], 0),
    ];
    let d = diff_snapshots(&ms, &ms);
    assert!(d.added.is_empty());
    assert!(d.removed.is_empty());
    assert!(d.modified.is_empty());
    assert_eq!(d.unchanged, 2);
}

#[test]
fn sealed_content_opens_under_its_key() {
    let sealed = seal_content("secret plan", "pass").unwrap();
    assert!(sealed.starts_with("ENC:"));
    assert!(seal_content(&sealed, "pass").is_none());
    assert_eq!(open_content(&sealed, "pass").unwrap().unwrap(), "secret plan");
    assert!(open_content(&sealed, "other").unwrap().is_err());
    assert!(open_content("plain", "pass").is_none());
    assert_eq!(seal_content("x", "").unwrap(), "ENC:x");
}

#[test]
fn hook_texts_install_and_clean() {
    assert_eq!(installed_hook_text(None, PRE_COMMIT_HOOK), Some(PRE_COMMIT_HOOK.to_string()));
    assert_eq!(installed_hook_text(Some("# project-memory here".to_string()), PRE_COMMIT_HOOK), None);
    let mixed = installed_hook_text(Some("#!/bin/sh\necho hi".to_string()), POST_MERGE_HOOK).unwrap();
    assert_eq!(mixed, format!("#!/bin/sh\necho hi\n{}", POST_MERGE_HOOK));
    // The scripts are taken out first, so a file holding only pmem's scripts goes,
    // and a file with earlier content keeps just that content.
    let std_clean = |c: &str| {
        c.replace(PRE_COMMIT_HOOK, "").replace(POST_MERGE_HOOK, "").lines().collect::<Vec<_>>().join("\n").trim().to_string()
    };
    for c in [
        PRE_COMMIT_HOOK.to_string(),
        format!("echo a\n{}", POST_MERGE_HOOK),
        format!("{}\necho b\n", PRE_COMMIT_HOOK),
        "   \n".to_string(),
    ] {
        let expected = std_clean(&c);
        let expected = if expected.is_empty() { None } else { Some(expected) };
        assert_eq!(cleaned_hook_text(&c), expected);
    }
    assert_eq!(cleaned_hook_text(PRE_COMMIT_HOOK), None);
    assert_eq!(cleaned_hook_text(POST_MERGE_HOOK), None);
    assert_eq!(cleaned_hook_text(&mixed), Some("#!/bin/sh\necho hi".to_string()));
    let twice = installed_hook_text(Some(mixed.clone()), POST_MERGE_HOOK);
    assert_eq!(twice, None);
    assert_eq!(cleaned_hook_text("  \n "), None);
}

#[test]
fn tool_list_and_graph_json() {
    let tools = tool_descriptors();
    assert_eq!(tools.len(), 7);
    assert_eq!(tools[0].name, "memory_add");
    assert_eq!(tools[0].required, vec!["kind", "key", "content"]);
    assert_eq!(tools[1].params[1].default, Some(10));
    assert!(tools.iter().all(|t| tool_named(&t.name).is_some()));
    let mut a = mem("a", MemoryKind::Context, "ka", "x", &[], 0);
    a.related_ids = vec!["b".to_string(), "c".to_string()];
    let b = mem("b", MemoryKind::Context, "kb", "x", &[], 0);
    let g = json_graph(&[a, b]);
    assert_eq!(g.nodes, vec![("a".to_string(), "ka".to_string()), ("b".to_string(), "kb".to_string())]);
    assert_eq!(g.edges, vec![("a".to_string(), "b".to_string()), ("a".to_string(), "c".to_string())]);
}

#[test]
fn degree_counts_each_declared_link_at_both_ends() {
    let mut a = mem("a", MemoryKind::Context, "ka", "x", &[], 0);
    a.related_ids = vec!["b".to_string(), "a".to_string()];
    let mut b = mem("b", MemoryKind::Context, "kb", "x", &[], 0);
    b.related_ids = vec!["a".to_string()];
    let g = MemoryGraph::from_memories(&[a, b]);
    assert_eq!(g.degree("a"), 4);
    assert_eq!(g.degree("b"), 2);
    assert_eq!(g.degree("nobody"), 0);
    assert_eq!(g.edges(), 3);
    assert_eq!(g.neighbors("b"), vec!["a".to_string(), "a".to_string()]);
}

#[test]
fn fixed_store_has_no_tag_or_link_issue() {
    let mut a = mem("a", MemoryKind::Context, "a", "content a", &["z", "b", "z"], 0);
    a.related_ids = vec!["a".to_string(), "b".to_string(), "gone".to_string()];
    let b = mem("b", MemoryKind::Context, "b", "content b", &["x", "x"], 0);
    let mut ms = vec![a, b];
    let before = validate_v2(&ms);
    assert!(before.issues.iter().any(|i| i.category == "tags"));
    assert!(before.issues.iter().any(|i| i.category == "relationships"));
    auto_fix_v2(&mut ms);
    let after = validate_v2(&ms);
    assert!(after.issues.iter().all(|i| i.category != "tags" && i.category != "relationships"));
}

#[test]
fn merge_counts_each_stored_id_once() {
    let mut s = MemoryStore::new();
    let a = s.add(input(MemoryKind::Context, "a", "content a", &[])).unwrap();
    let b = s.add(input(MemoryKind::Context, "b", "content b", &[])).unwrap();
    let c = s.add(input(MemoryKind::Context, "c", "content c", &[])).unwrap();
    let remove = vec![b.id.clone(), b.id.clone(), "unknown".to_string(), c.id.clone()];
    assert_eq!(s.merge_duplicates(&a, &remove).unwrap(), 2);
    assert_eq!(s.count().unwrap(), 1);
    assert!(s.get(&b.id).unwrap().is_none());
}

#[test]
fn restored_memory_reads_back_whole() {
    let mut s = MemoryStore::new();
    let mut m = mem("fixed-id", MemoryKind::Pattern, "k", "body", &["t1"], 42);
    m.related_ids = vec!["other".to_string()];
    m.created_at = 7;
    s.add_with_id(&m).unwrap();
    let got = s.get("fixed-id").unwrap().unwrap();
    assert_eq!(got.key, "k");
    assert_eq!(got.content, "body");
    assert_eq!(got.tags, vec!["t1"]);
    assert_eq!(got.related_ids, vec!["other"]);
    assert_eq!(got.created_at, 7);
    assert_eq!(got.updated_at, 42);
    assert!(s.add_with_id(&m).is_err());
}

#[test]
fn encrypted_text_is_hex_of_salt_nonce_and_tagged_ciphertext() {
    let sealed = encrypt("héllo", "k");
    assert_eq!(sealed.len(), 2 * (16 + 12 + "héllo".len() + 16));
    assert!(sealed.chars().all(|c| c.is_ascii_hexdigit() && !c.is_ascii_uppercase()));
    assert_ne!(encrypt("héllo", "k"), sealed);
    assert_eq!(encrypt("plain", ""), "plain");
}

#[test]
fn highlight_marks_each_word_without_regard_to_case() {
    let words = vec!["sqlite".to_string(), "".to_string(), "use".to_string()];
    assert_eq!(highlight_text("Use SQLite for sqlite", &words), "**Use** **SQLite** for **sqlite**");
    assert_eq!(highlight_text("aaa", &["aa".to_string()]), "**aa**a");
    assert_eq!(highlight_text("nothing here", &["zz".to_string()]), "nothing here");
}

#[test]
fn cleanup_keeps_the_newest() {
    assert_eq!(backups_to_delete(&[30, 10, 20, 40], 2), vec![1, 2]);
    assert_eq!(backups_to_delete(&[5, 5, 5], 1), vec![1, 2]);
    assert_eq!(backups_to_delete(&[1, 2], 5), Vec::<usize>::new());
    assert_eq!(backups_to_delete(&[1, 2], 0), vec![0, 1]);
}

#[test]
fn restore_succeeds_on_a_free_id_and_merge_counts_distinct_ids() {
    let mut s = MemoryStore::new();
    let m = mem("free-id", MemoryKind::Context, "k", "c", &[], 1);
    assert!(s.add_with_id(&m).is_ok());
    let n = mem("other-id", MemoryKind::Context, "k2", "c2", &[], 1);
    assert!(s.add_with_id(&n).is_ok());
    let keep = mem("free-id", MemoryKind::Context, "k", "merged", &[], 1);
    let remove = vec!["other-id".to_string(), "other-id".to_string(), "missing".to_string()];
    assert_eq!(s.merge_duplicates(&keep, &remove).unwrap(), 1);
    assert_eq!(s.get("free-id").unwrap().unwrap().content, "merged");
}
