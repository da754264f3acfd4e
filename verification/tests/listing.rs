use eshttp::environment::environment_file_name;
use eshttp::error::{FailureKind, ScopeError};
use eshttp::model::{Collection, DirEntry, EntryKind, RequestFile, Workspace};
use eshttp::repository::{
    detect_git_repo, git_commit_paths, read_git_repo, CommitRequest, CommitStage,
};
use eshttp::requests::{
    list_requests, request_title, select_request_files, ListingRequest,
};
use eshttp::scoped::FsEvent;
use eshttp::workspaces::{file_name, get_workspace_roots, list_workspaces, read_dirs};

fn entry(name: &str, kind: EntryKind, resolved: Option<&str>) -> DirEntry {
    DirEntry {
        name: Some(name.to_string()),
        kind,
        resolved: resolved.map(|s| s.to_string()),
    }
}

fn collection() -> Collection {
    Collection {
        id: "collection:workspace:/w/api".to_string(),
        workspace_id: "workspace:/w".to_string(),
        name: "api".to_string(),
        uri: "/w/api".to_string(),
    }
}

fn strings(items: &[&str]) -> Vec<String> {
    items.iter().map(|s| s.to_string()).collect()
}

#[test]
fn request_titles_drop_the_suffix() {
    assert_eq!(request_title("login.http"), "login");
    assert_eq!(request_title("a.b.http"), "a.b");
    assert_eq!(request_title("a.http.http"), "a.http");
    assert_eq!(request_title("twice.http.http"), "twice.http");
    assert_eq!(request_title(".http.http"), ".http");
    assert_eq!(request_title(".http"), "");
    assert_eq!(request_title("plain"), "plain");
    assert_eq!(request_title("http"), "http");
}

#[test]
fn request_files_are_regular_files_with_the_suffix() {
    let entries = vec![
        entry("b.http", EntryKind::File, None),
        entry("linked.http", EntryKind::Symlink, None),
        entry("dir.http", EntryKind::Directory, Some("/w/api/dir.http")),
        entry("pipe.http", EntryKind::Other, None),
        entry("notes.txt", EntryKind::File, None),
        entry("a.http", EntryKind::File, None),
        DirEntry { name: None, kind: EntryKind::File, resolved: None },
        entry("shout.HTTP", EntryKind::File, None),
    ];
    assert_eq!(select_request_files(&entries), strings(&["b.http", "a.http"]));
}

#[test]
fn requests_are_listed_sorted_by_title() {
    let entries = vec![
        entry("zeta.http", EntryKind::File, None),
        entry("alpha.http", EntryKind::File, None),
        entry("readme.md", EntryKind::File, None),
        entry("Mid.http", EntryKind::File, None),
    ];
    let (listing, asked) = list_requests(&collection(), "/w/api", &entries);
    assert_eq!(asked, ListingRequest::Resolve("/w/api/zeta.http".to_string()));
    let (listing, asked) = listing
        .advance(FsEvent::Resolved("/w/api/zeta.http".to_string()))
        .unwrap();
    assert_eq!(asked, ListingRequest::Resolve("/w/api/alpha.http".to_string()));
    let (listing, asked) = listing
        .advance(FsEvent::Resolved("/w/api/alpha.http".to_string()))
        .unwrap();
    assert_eq!(asked, ListingRequest::Resolve("/w/api/Mid.http".to_string()));
    let (listing, asked) = listing
        .advance(FsEvent::Resolved("/w/api/Mid.http".to_string()))
        .unwrap();
    let request = |title: &str, uri: &str| RequestFile {
        id: format!("request:{}", uri),
        collection_id: "collection:workspace:/w/api".to_string(),
        title: title.to_string(),
        uri: uri.to_string(),
    };
    assert_eq!(
        asked,
        ListingRequest::Finish(vec![
            request("Mid", "/w/api/Mid.http"),
            request("alpha", "/w/api/alpha.http"),
            request("zeta", "/w/api/zeta.http"),
        ])
    );
    assert_eq!(
        listing
            .advance(FsEvent::Resolved("/w/api/more.http".to_string()))
            .unwrap_err(),
        ScopeError::OutOfTurn
    );
}

#[test]
fn requests_of_an_empty_directory_are_none() {
    let (_, asked) = list_requests(&collection(), "/w/api", &vec![]);
    assert_eq!(asked, ListingRequest::Finish(vec![]));
}

#[test]
fn requests_that_resolve_outside_the_collection_end_the_listing() {
    let entries = vec![entry("a.http", EntryKind::File, None)];
    let (listing, _) = list_requests(&collection(), "/w/api", &entries);
    let error = listing
        .advance(FsEvent::Resolved("/w/other/a.http".to_string()))
        .unwrap_err();
    assert_eq!(
        error,
        ScopeError::OutsideRoot {
            root: "/w/api".to_string(),
            resolved: "/w/other/a.http".to_string(),
        }
    );
    let (listing, _) = list_requests(&collection(), "/w/api", &entries);
    assert_eq!(
        listing.advance(FsEvent::Created).unwrap_err(),
        ScopeError::OutOfTurn
    );
}

#[test]
fn requests_drop_the_suffix_once() {
    let entries = vec![entry("a.http.http", EntryKind::File, None)];
    let (listing, asked) = list_requests(&collection(), "/w/api", &entries);
    assert_eq!(asked, ListingRequest::Resolve("/w/api/a.http.http".to_string()));
    let (_, asked) = listing
        .advance(FsEvent::Resolved("/w/api/a.http.http".to_string()))
        .unwrap();
    match asked {
        ListingRequest::Finish(found) => {
            assert_eq!(found.len(), 1);
            assert_eq!(found[0].title, "a.http");
            assert_eq!(found[0].uri, "/w/api/a.http.http");
        }
        other => panic!("unexpected request {:?}", other),
    }
}

#[test]
fn requests_with_equal_titles_keep_their_order() {
    let entries = vec![
        entry("same.http", EntryKind::File, None),
        entry("same.http", EntryKind::File, None),
    ];
    let (listing, _) = list_requests(&collection(), "/w/api", &entries);
    let (listing, _) = listing
        .advance(FsEvent::Resolved("/w/api/b/same.http".to_string()))
        .unwrap();
    let (_, asked) = listing
        .advance(FsEvent::Resolved("/w/api/a/same.http".to_string()))
        .unwrap();
    match asked {
        ListingRequest::Finish(found) => {
            assert_eq!(found.len(), 2);
            assert_eq!(found[0].uri, "/w/api/b/same.http");
            assert_eq!(found[1].uri, "/w/api/a/same.http");
            assert_eq!(found[0].title, "same");
            assert_eq!(found[1].title, "same");
        }
        other => panic!("unexpected request {:?}", other),
    }
}

#[test]
fn workspace_roots_are_local_then_user() {
    assert_eq!(
        get_workspace_roots(Some("/home/u/project"), Some("/home/u/.config")),
        strings(&[
            "/home/u/project/.eshttp/workspaces",
            "/home/u/.config/eshttp/workspaces"
        ])
    );
    assert_eq!(
        get_workspace_roots(None, Some("/cfg/")),
        strings(&["/cfg/eshttp/workspaces"])
    );
    assert_eq!(
        get_workspace_roots(Some("/"), None),
        strings(&["/.eshttp/workspaces"])
    );
    assert!(get_workspace_roots(None, None).is_empty());
}

#[test]
fn workspace_candidates_are_resolved_directories() {
    let entries = vec![
        entry("one", EntryKind::Directory, Some("/roots/one")),
        entry("link", EntryKind::Symlink, Some("/roots/one")),
        entry("file", EntryKind::File, Some("/roots/file")),
        entry("broken", EntryKind::Directory, None),
        entry("two", EntryKind::Directory, Some("/roots/two")),
    ];
    assert_eq!(read_dirs(&entries), strings(&["/roots/one", "/roots/two"]));
}

#[test]
fn file_names_are_the_last_named_segment() {
    assert_eq!(file_name("/roots/one"), Some("one".to_string()));
    assert_eq!(file_name("/roots/one/"), Some("one".to_string()));
    assert_eq!(file_name("/roots/one/."), Some("one".to_string()));
    assert_eq!(file_name("one"), Some("one".to_string()));
    assert_eq!(file_name("/"), None);
    assert_eq!(file_name(""), None);
    assert_eq!(file_name("."), None);
    assert_eq!(file_name("/roots/.."), None);
}

#[test]
fn workspaces_are_listed_once_for_each_directory() {
    let listed = list_workspaces(strings(&[
        "/roots/one",
        "/roots/two",
        "/",
        "/roots/one",
        "/other/one",
    ]));
    let workspace = |uri: &str, name: &str| Workspace {
        id: format!("workspace:{}", uri),
        name: name.to_string(),
        uri: uri.to_string(),
    };
    assert_eq!(
        listed,
        vec![
            workspace("/roots/one", "one"),
            workspace("/roots/two", "two"),
            workspace("/other/one", "one"),
        ]
    );
}

#[test]
fn environment_names_are_checked_before_use() {
    assert_eq!(environment_file_name("local"), Ok(".env.local".to_string()));
    assert_eq!(
        environment_file_name("Prod-2_eu.west"),
        Ok(".env.Prod-2_eu.west".to_string())
    );
    assert_eq!(
        environment_file_name(""),
        Err(ScopeError::EmptyEnvironmentName)
    );
    assert_eq!(
        environment_file_name("../secret"),
        Err(ScopeError::InvalidEnvironmentName {
            name: "../secret".to_string()
        })
    );
    assert_eq!(
        environment_file_name("a b"),
        Err(ScopeError::InvalidEnvironmentName {
            name: "a b".to_string()
        })
    );
    let error = environment_file_name("caf\u{e9}").unwrap_err();
    assert_eq!(error.kind(), FailureKind::InvalidInput);
    assert_eq!(error.message(), "Invalid environment name: caf\u{e9}");
    assert_eq!(
        environment_file_name("").unwrap_err().message(),
        "Environment name is empty"
    );
}

#[test]
fn repository_probe_is_read_from_the_command() {
    assert_eq!(
        detect_git_repo("/w/api"),
        strings(&["-C", "/w/api", "rev-parse", "--show-toplevel"])
    );
    assert_eq!(
        read_git_repo("/w/api", true, "/w\n", ""),
        Ok(Some("/w".to_string()))
    );
    assert_eq!(read_git_repo("/w/api", true, "  \n", "noise"), Ok(None));
    assert_eq!(
        read_git_repo(
            "/w/api",
            false,
            "",
            "fatal: not a git repository (or any of the parent directories): .git\n"
        ),
        Ok(None)
    );
    let error = read_git_repo("/w/api", false, "", " fatal: bad things \n").unwrap_err();
    assert_eq!(
        error,
        ScopeError::RepositoryProbeFailed {
            path: "/w/api".to_string(),
            detail: "fatal: bad things".to_string(),
        }
    );
    assert_eq!(
        error.message(),
        "Failed to detect git repository for /w/api: fatal: bad things"
    );
}

#[test]
fn commit_stages_compares_and_commits() {
    let (plan, asked) = git_commit_paths(
        "/repo",
        strings(&["a.http", "../x", "dir\\b.http", "a.http"]),
        "save requests".to_string(),
    );
    assert_eq!(
        asked,
        CommitRequest::Run(strings(&[
            "-C",
            "/repo",
            "add",
            "--",
            ":(literal)a.http",
            ":(literal)dir/b.http"
        ]))
    );
    let (plan, asked) = plan.advance(true, "").unwrap();
    assert_eq!(
        asked,
        CommitRequest::Run(strings(&[
            "-C",
            "/repo",
            "diff",
            "--cached",
            "--quiet",
            "--",
            ":(literal)a.http",
            ":(literal)dir/b.http"
        ]))
    );
    // The comparison fails where something is staged.
    let (plan, asked) = plan.advance(false, "").unwrap();
    assert_eq!(
        asked,
        CommitRequest::Run(strings(&[
            "-C",
            "/repo",
            "commit",
            "-m",
            "save requests",
            "--no-verify",
            "--",
            ":(literal)a.http",
            ":(literal)dir/b.http"
        ]))
    );
    assert_eq!(plan.stage(), CommitStage::Committing);
    let (plan, asked) = plan.advance(true, "").unwrap();
    assert_eq!(asked, CommitRequest::Finish);
    assert_eq!(plan.stage(), CommitStage::Done);
    assert_eq!(plan.advance(true, "").unwrap_err(), ScopeError::OutOfTurn);
}

#[test]
fn commit_ends_early_where_nothing_is_to_do() {
    let (_, asked) = git_commit_paths("/repo", strings(&["/abs", ".."]), "m".to_string());
    assert_eq!(asked, CommitRequest::Finish);
    let (plan, _) = git_commit_paths("/repo", strings(&["a.http"]), "m".to_string());
    let (plan, _) = plan.advance(true, "").unwrap();
    // The comparison succeeds where nothing is staged.
    let (_, asked) = plan.advance(true, "").unwrap();
    assert_eq!(asked, CommitRequest::Finish);
}

#[test]
fn commit_reports_the_command_that_failed() {
    let (plan, _) = git_commit_paths("/repo", strings(&["a.http"]), "m".to_string());
    let error = plan.advance(false, "fatal: pathspec did not match\n").unwrap_err();
    assert_eq!(error.message(), "git add failed: fatal: pathspec did not match");
    let (plan, _) = git_commit_paths("/repo", strings(&["a.http"]), "m".to_string());
    let (plan, _) = plan.advance(true, "").unwrap();
    let (plan, _) = plan.advance(false, "").unwrap();
    let error = plan.advance(false, " hook refused ").unwrap_err();
    assert_eq!(
        error,
        ScopeError::CommitFailed {
            detail: "hook refused".to_string()
        }
    );
    assert_eq!(error.message(), "git commit failed: hook refused");
    assert_eq!(error.kind(), FailureKind::IoFailure);
}
