use eshttp::config::DiscoveryConfig;
use eshttp::discovery::{discover_collections, WalkEvent, WalkRequest};
use eshttp::error::{FailureKind, ScopeError};
use eshttp::model::{Collection, DirEntry, EntryKind, Workspace};

/// What a directory of the fixture holds.
struct Dir {
    path: &'static str,
    config: Option<Result<DiscoveryConfig, &'static str>>,
    entries: Vec<DirEntry>,
}

fn file(name: &str) -> DirEntry {
    DirEntry {
        name: Some(name.to_string()),
        kind: EntryKind::File,
        resolved: None,
    }
}

fn dir(name: &str, resolved: &str) -> DirEntry {
    DirEntry {
        name: Some(name.to_string()),
        kind: EntryKind::Directory,
        resolved: Some(resolved.to_string()),
    }
}

fn symlink(name: &str, resolved: &str) -> DirEntry {
    DirEntry {
        name: Some(name.to_string()),
        kind: EntryKind::Symlink,
        resolved: Some(resolved.to_string()),
    }
}

fn config(entries: &[&str], includes: &[&str], excludes: &[&str]) -> DiscoveryConfig {
    DiscoveryConfig {
        entries: entries.iter().map(|s| s.to_string()).collect(),
        includes: includes.iter().map(|s| s.to_string()).collect(),
        excludes: excludes.iter().map(|s| s.to_string()).collect(),
    }
}

fn copy_entry(entry: &DirEntry) -> DirEntry {
    DirEntry {
        name: entry.name.clone(),
        kind: entry.kind,
        resolved: entry.resolved.clone(),
    }
}

fn copy_config(config: &DiscoveryConfig) -> DiscoveryConfig {
    DiscoveryConfig {
        entries: config.entries.clone(),
        includes: config.includes.clone(),
        excludes: config.excludes.clone(),
    }
}

fn workspace(root: &str) -> Workspace {
    Workspace {
        id: "workspace:test".to_string(),
        name: "test".to_string(),
        uri: root.to_string(),
    }
}

/// Runs a walk over the fixture and records what the walk asked for.
fn run(root: &str, dirs: &[Dir], log: &mut Vec<String>) -> Result<Vec<Collection>, ScopeError> {
    let (mut walk, mut request) = discover_collections(workspace(root), root);
    let mut steps = 0;
    loop {
        steps += 1;
        assert!(steps < 1000, "the walk does not end");
        let event = match request {
            WalkRequest::Finish(found) => return Ok(found),
            WalkRequest::LoadConfig(path) => {
                log.push(format!("config {}", path));
                let at = path.strip_suffix("/.eshttp.json").unwrap();
                let found = dirs.iter().find(|d| d.path == at).expect("a known directory");
                match &found.config {
                    None => WalkEvent::Config(None),
                    Some(Ok(config)) => WalkEvent::Config(Some(copy_config(config))),
                    Some(Err(cause)) => WalkEvent::ConfigMalformed(cause.to_string()),
                }
            }
            WalkRequest::ListDirectory(path) => {
                log.push(format!("list {}", path));
                let found = dirs.iter().find(|d| d.path == path).expect("a known directory");
                WalkEvent::Listing(found.entries.iter().map(copy_entry).collect())
            }
        };
        let (next, asked) = walk.advance(event)?;
        walk = next;
        request = asked;
    }
}

fn names(found: &[Collection]) -> Vec<String> {
    found.iter().map(|c| c.name.clone()).collect()
}

#[test]
fn discovery_names_the_root_after_the_workspace() {
    let dirs = [Dir {
        path: "/w",
        config: None,
        entries: vec![file("one.http"), file("notes.txt")],
    }];
    let mut log = Vec::new();
    let found = run("/w", &dirs, &mut log).unwrap();
    assert_eq!(
        found,
        vec![Collection {
            id: "collection:workspace:test/.".to_string(),
            workspace_id: "workspace:test".to_string(),
            name: "test".to_string(),
            uri: "/w".to_string(),
        }]
    );
    assert_eq!(log, vec!["config /w/.eshttp.json", "list /w"]);
}

#[test]
fn discovery_sorts_collections_by_name() {
    let dirs = [
        Dir {
            path: "/w",
            config: None,
            entries: vec![dir("zeta", "/w/zeta"), dir("alpha", "/w/alpha"), dir("mid", "/w/mid")],
        },
        Dir { path: "/w/zeta", config: None, entries: vec![file("z.http")] },
        Dir {
            path: "/w/alpha",
            config: None,
            entries: vec![file("a.http"), dir("deep", "/w/alpha/deep")],
        },
        Dir { path: "/w/alpha/deep", config: None, entries: vec![file("d.http")] },
        Dir { path: "/w/mid", config: None, entries: vec![file("readme.md")] },
    ];
    let mut log = Vec::new();
    let found = run("/w", &dirs, &mut log).unwrap();
    assert_eq!(names(&found), vec!["alpha", "alpha/deep", "zeta"]);
    assert_eq!(found[1].id, "collection:workspace:test/alpha/deep");
    assert_eq!(found[1].uri, "/w/alpha/deep");
    assert_eq!(found[1].workspace_id, "workspace:test");
    assert_eq!(
        log,
        vec![
            "config /w/.eshttp.json",
            "list /w",
            "config /w/zeta/.eshttp.json",
            "list /w/zeta",
            "config /w/alpha/.eshttp.json",
            "list /w/alpha",
            "config /w/alpha/deep/.eshttp.json",
            "list /w/alpha/deep",
            "config /w/mid/.eshttp.json",
            "list /w/mid",
        ]
    );
}

#[test]
fn discover_collections_ignores_symlink_files_and_dirs() {
    let dirs = [Dir {
        path: "/w",
        config: None,
        entries: vec![symlink("linked.http", "/outside/outside.http"), symlink("loop", "/w")],
    }];
    let mut log = Vec::new();
    let found = run("/w", &dirs, &mut log).unwrap();
    assert!(found.is_empty(), "symlinked .http files should not produce collections");
    assert_eq!(log, vec!["config /w/.eshttp.json", "list /w"]);
}

#[test]
fn discovery_visits_an_aliased_directory_once() {
    // Two entries resolve to the same directory, and one resolves to the
    // directory that lists it.
    let dirs = [
        Dir {
            path: "/w",
            config: None,
            entries: vec![file("root.http"), dir("a", "/w/a"), dir("again", "/w/a"), dir("self", "/w")],
        },
        Dir { path: "/w/a", config: None, entries: vec![file("a.http"), dir("up", "/w")] },
    ];
    let mut log = Vec::new();
    let found = run("/w", &dirs, &mut log).unwrap();
    assert_eq!(names(&found), vec!["a", "test"]);
    assert_eq!(log.iter().filter(|l| l.as_str() == "list /w").count(), 1);
    assert_eq!(log.iter().filter(|l| l.as_str() == "list /w/a").count(), 1);
}

#[test]
fn discovery_skips_directories_that_resolve_outside_the_root() {
    let dirs = [Dir {
        path: "/w",
        config: None,
        entries: vec![
            dir("out", "/elsewhere"),
            dir("near", "/w2"),
            DirEntry { name: Some("broken".to_string()), kind: EntryKind::Directory, resolved: None },
            DirEntry { name: Some("pipe.http".to_string()), kind: EntryKind::Other, resolved: None },
            DirEntry { name: None, kind: EntryKind::File, resolved: None },
        ],
    }];
    let mut log = Vec::new();
    let found = run("/w", &dirs, &mut log).unwrap();
    assert!(found.is_empty());
    assert_eq!(log, vec!["config /w/.eshttp.json", "list /w"]);
}

#[test]
fn discovery_inherits_the_nearest_configuration() {
    let dirs = [
        Dir {
            path: "/w",
            config: Some(Ok(config(&[], &[], &["*/skip"]))),
            entries: vec![dir("a", "/w/a"), dir("b", "/w/b")],
        },
        // a has no configuration: the root's excludes a/skip.
        Dir {
            path: "/w/a",
            config: None,
            entries: vec![file("a.http"), dir("skip", "/w/a/skip"), dir("keep", "/w/a/keep")],
        },
        Dir { path: "/w/a/skip", config: None, entries: vec![file("s.http")] },
        Dir { path: "/w/a/keep", config: None, entries: vec![file("k.http")] },
        // b has its own: the root's no longer applies below b.
        Dir {
            path: "/w/b",
            config: Some(Ok(config(&[], &[], &[]))),
            entries: vec![dir("skip", "/w/b/skip")],
        },
        Dir { path: "/w/b/skip", config: None, entries: vec![file("s.http")] },
    ];
    let mut log = Vec::new();
    let found = run("/w", &dirs, &mut log).unwrap();
    assert_eq!(names(&found), vec!["a", "a/keep", "b/skip"]);
    assert!(log.contains(&"config /w/a/skip/.eshttp.json".to_string()));
    assert!(!log.contains(&"list /w/a/skip".to_string()));
}

#[test]
fn discovery_lets_exclude_win_over_include() {
    let dirs = [
        Dir {
            path: "/w",
            config: Some(Ok(config(&[], &[".", "a", "b"], &["b"]))),
            entries: vec![dir("a", "/w/a"), dir("b", "/w/b"), dir("c", "/w/c")],
        },
        Dir { path: "/w/a", config: None, entries: vec![file("a.http")] },
        Dir { path: "/w/b", config: None, entries: vec![file("b.http")] },
        Dir { path: "/w/c", config: None, entries: vec![file("c.http")] },
    ];
    let mut log = Vec::new();
    let found = run("/w", &dirs, &mut log).unwrap();
    assert_eq!(names(&found), vec!["a"]);
}

#[test]
fn discovery_matches_entries_from_the_origin_of_the_configuration() {
    // The configuration lives in /w/group. Its entries are measured from
    // there: "api" names /w/group/api, whose path from the root is group/api.
    let dirs = [
        Dir { path: "/w", config: None, entries: vec![dir("group", "/w/group")] },
        Dir {
            path: "/w/group",
            config: Some(Ok(config(&["api"], &[], &[]))),
            entries: vec![file("g.http"), dir("api", "/w/group/api"), dir("web", "/w/group/web")],
        },
        Dir {
            path: "/w/group/api",
            config: None,
            entries: vec![file("a.http"), dir("group", "/w/group/api/group")],
        },
        Dir {
            path: "/w/group/api/group",
            config: None,
            entries: vec![dir("api", "/w/group/api/group/api")],
        },
        Dir { path: "/w/group/api/group/api", config: None, entries: vec![file("x.http")] },
        Dir { path: "/w/group/web", config: None, entries: vec![file("w.http")] },
    ];
    let mut log = Vec::new();
    let found = run("/w", &dirs, &mut log).unwrap();
    assert_eq!(names(&found), vec!["group/api"]);
    // Every directory was listed all the same: entries do not prune.
    assert!(log.contains(&"list /w/group/web".to_string()));
    assert!(log.contains(&"list /w/group/api/group/api".to_string()));
}

#[test]
fn discovery_prunes_an_excluded_directory_with_request_files() {
    let dirs = [
        Dir { path: "/w", config: None, entries: vec![dir("A", "/w/A")] },
        Dir {
            path: "/w/A",
            config: Some(Ok(config(&[], &[], &["A/secret"]))),
            entries: vec![file("x.http"), dir("secret", "/w/A/secret")],
        },
        Dir {
            path: "/w/A/secret",
            config: None,
            entries: vec![file("y.http"), dir("deeper", "/w/A/secret/deeper")],
        },
        Dir { path: "/w/A/secret/deeper", config: None, entries: vec![file("z.http")] },
    ];
    let mut log = Vec::new();
    let found = run("/w", &dirs, &mut log).unwrap();
    assert_eq!(names(&found), vec!["A"]);
    assert!(!log.contains(&"list /w/A/secret".to_string()));
    assert!(!log.contains(&"config /w/A/secret/deeper/.eshttp.json".to_string()));
}

#[test]
fn discovery_treats_an_invalid_pattern_as_matching_nothing() {
    let dirs = [
        Dir {
            path: "/w",
            config: Some(Ok(config(&[], &[], &["a[", "b**"]))),
            entries: vec![dir("a[", "/w/a["), dir("b", "/w/b")],
        },
        Dir { path: "/w/a[", config: None, entries: vec![file("a.http")] },
        Dir { path: "/w/b", config: None, entries: vec![file("b.http")] },
    ];
    let mut log = Vec::new();
    let found = run("/w", &dirs, &mut log).unwrap();
    assert_eq!(names(&found), vec!["a[", "b"]);
}

#[test]
fn discovery_stops_at_a_malformed_configuration() {
    let dirs = [
        Dir { path: "/w", config: None, entries: vec![file("r.http"), dir("a", "/w/a"), dir("b", "/w/b")] },
        Dir { path: "/w/a", config: Some(Err("expected value at line 1 column 1")), entries: vec![] },
        Dir { path: "/w/b", config: None, entries: vec![file("b.http")] },
    ];
    let mut log = Vec::new();
    let error = run("/w", &dirs, &mut log).unwrap_err();
    assert_eq!(
        error,
        ScopeError::ConfigMalformed {
            path: "/w/a/.eshttp.json".to_string(),
            cause: "expected value at line 1 column 1".to_string(),
        }
    );
    assert_eq!(error.kind(), FailureKind::ConfigParseFailure);
    assert_eq!(
        error.message(),
        "Failed to parse /w/a/.eshttp.json: expected value at line 1 column 1"
    );
    assert!(!log.contains(&"config /w/b/.eshttp.json".to_string()));
}

#[test]
fn discovery_refuses_events_out_of_turn() {
    let (walk, _) = discover_collections(workspace("/w"), "/w");
    assert_eq!(walk.advance(WalkEvent::Listing(vec![])).unwrap_err(), ScopeError::OutOfTurn);
    let (walk, _) = discover_collections(workspace("/w"), "/w");
    let (walk, request) = walk.advance(WalkEvent::Config(None)).unwrap();
    assert_eq!(request, WalkRequest::ListDirectory("/w".to_string()));
    assert_eq!(walk.advance(WalkEvent::Config(None)).unwrap_err(), ScopeError::OutOfTurn);
    let (walk, _) = discover_collections(workspace("/w"), "/w");
    let (walk, _) = walk.advance(WalkEvent::Config(None)).unwrap();
    let error = walk.advance(WalkEvent::ListingFailed("permission denied".to_string())).unwrap_err();
    assert_eq!(error.kind(), FailureKind::IoFailure);
    assert_eq!(error.message(), "Failed to read directory /w: permission denied");
    let (walk, _) = discover_collections(workspace("/w"), "/w");
    let error = walk.advance(WalkEvent::ConfigUnreadable("denied".to_string())).unwrap_err();
    assert_eq!(error.message(), "Failed to read /w/.eshttp.json: denied");
}

#[test]
fn discovery_recursive_exclude_prunes_the_named_directory() {
    // W/A holds {"exclude":["A/secret/**"]}, W/A/x.http and W/A/secret/y.http.
    let dirs = [
        Dir { path: "/W", config: None, entries: vec![dir("A", "/W/A")] },
        Dir {
            path: "/W/A",
            config: Some(Ok(config(&[], &[], &["A/secret/**"]))),
            entries: vec![file("x.http"), dir("secret", "/W/A/secret")],
        },
        Dir {
            path: "/W/A/secret",
            config: None,
            entries: vec![file("y.http"), dir("deeper", "/W/A/secret/deeper")],
        },
        Dir { path: "/W/A/secret/deeper", config: None, entries: vec![file("z.http")] },
    ];
    let mut log = Vec::new();
    let found = run("/W", &dirs, &mut log).unwrap();
    assert_eq!(found.len(), 1);
    assert_eq!(names(&found), vec!["A"]);
    assert!(!log.contains(&"list /W/A/secret".to_string()));
    assert!(!log.contains(&"config /W/A/secret/deeper/.eshttp.json".to_string()));
}

#[test]
fn discovery_hands_the_root_configuration_down_unchanged() {
    // W holds {"exclude":["A/x"]}; W/A and W/A/x hold none.
    let dirs = [
        Dir {
            path: "/W",
            config: Some(Ok(config(&[], &[], &["A/x"]))),
            entries: vec![dir("A", "/W/A")],
        },
        Dir { path: "/W/A", config: None, entries: vec![file("a.http"), dir("x", "/W/A/x")] },
        Dir { path: "/W/A/x", config: None, entries: vec![file("r.http")] },
    ];
    let mut log = Vec::new();
    let found = run("/W", &dirs, &mut log).unwrap();
    assert_eq!(names(&found), vec!["A"]);
}

#[test]
fn discovery_replaces_the_inherited_configuration_whole() {
    // W holds {"exclude":["A"]}; W/A holds {}.
    let dirs = [
        Dir {
            path: "/W",
            config: Some(Ok(config(&[], &[], &["A"]))),
            entries: vec![dir("A", "/W/A")],
        },
        Dir {
            path: "/W/A",
            config: Some(Ok(config(&[], &[], &[]))),
            entries: vec![file("x.http")],
        },
    ];
    let mut log = Vec::new();
    let found = run("/W", &dirs, &mut log).unwrap();
    assert_eq!(names(&found), vec!["A"]);
}

#[test]
fn discovery_neither_lists_nor_enters_an_excluded_directory() {
    // W holds {"exclude":["A"]}; W/A/x.http and W/A/sub/y.http exist.
    let dirs = [
        Dir {
            path: "/W",
            config: Some(Ok(config(&[], &[], &["A"]))),
            entries: vec![dir("A", "/W/A")],
        },
        Dir { path: "/W/A", config: None, entries: vec![file("x.http"), dir("sub", "/W/A/sub")] },
        Dir { path: "/W/A/sub", config: None, entries: vec![file("y.http")] },
    ];
    let mut log = Vec::new();
    let found = run("/W", &dirs, &mut log).unwrap();
    assert!(found.is_empty());
    assert!(!log.contains(&"list /W/A".to_string()));
    assert!(!log.iter().any(|line| line.contains("/W/A/sub")));
}

#[test]
fn discovery_measures_entries_from_the_configuration() {
    // W/A holds {"entries":["api"]}; W/A/api/r.http and W/A/other/s.http exist.
    let dirs = [
        Dir { path: "/W", config: None, entries: vec![dir("A", "/W/A")] },
        Dir {
            path: "/W/A",
            config: Some(Ok(config(&["api"], &[], &[]))),
            entries: vec![dir("api", "/W/A/api"), dir("other", "/W/A/other")],
        },
        Dir { path: "/W/A/api", config: None, entries: vec![file("r.http")] },
        Dir { path: "/W/A/other", config: None, entries: vec![file("s.http")] },
    ];
    let mut log = Vec::new();
    let found = run("/W", &dirs, &mut log).unwrap();
    assert_eq!(names(&found), vec!["A/api"]);
}

#[test]
fn discovery_enters_a_directory_that_is_no_entry() {
    // W holds {"entries":["x/y"]}; W/x/a.http and W/x/y/b.http exist.
    let dirs = [
        Dir {
            path: "/W",
            config: Some(Ok(config(&["x/y"], &[], &[]))),
            entries: vec![dir("x", "/W/x")],
        },
        Dir { path: "/W/x", config: None, entries: vec![file("a.http"), dir("y", "/W/x/y")] },
        Dir { path: "/W/x/y", config: None, entries: vec![file("b.http")] },
    ];
    let mut log = Vec::new();
    let found = run("/W", &dirs, &mut log).unwrap();
    assert_eq!(names(&found), vec!["x/y"]);
    assert!(log.contains(&"list /W/x".to_string()));
}
