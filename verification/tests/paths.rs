use eshttp::commit::{sanitize_commit_paths, to_literal_pathspec};
use eshttp::error::{FailureKind, ScopeError};
use eshttp::paths::{
    ensure_within_root, join_path, make_id, normalize_path, parse_relative_path, relative_path,
};

#[test]
fn parse_relative_path_rejects_parent_and_absolute_paths() {
    assert!(parse_relative_path("../secret").is_err());
    assert!(parse_relative_path("/etc/passwd").is_err());
    assert!(parse_relative_path("a/../../b").is_err());
    assert!(parse_relative_path("  ").is_err());
}

#[test]
fn sanitize_commit_paths_removes_unsafe_entries() {
    let sanitized = sanitize_commit_paths(vec![
        "safe/file.http".to_string(),
        "safe/file.http".to_string(),
        "/abs/path.http".to_string(),
        "../escape.http".to_string(),
        "nested/./file.http".to_string(),
        "nested//file.http".to_string(),
    ]);

    assert_eq!(sanitized, vec!["safe/file.http".to_string()]);
    assert_eq!(
        to_literal_pathspec("safe/file.http"),
        ":(literal)safe/file.http"
    );
}

#[test]
fn sanitize_commit_paths_keeps_first_of_each_safe_path() {
    let sanitized = sanitize_commit_paths(vec![
        "a.http".to_string(),
        "a.http".to_string(),
        "../x".to_string(),
        "/abs".to_string(),
        "b//c".to_string(),
        "d/./e".to_string(),
    ]);
    assert_eq!(sanitized, vec!["a.http".to_string()]);
}

#[test]
fn sanitize_commit_paths_normalizes_before_comparing() {
    let sanitized = sanitize_commit_paths(vec![
        "  dir\\one.http ".to_string(),
        "dir/one.http".to_string(),
        "two.http".to_string(),
        "nul\0byte".to_string(),
        "trailing/".to_string(),
        "".to_string(),
        "   ".to_string(),
        "..".to_string(),
        ".".to_string(),
        "..hidden".to_string(),
    ]);
    assert_eq!(
        sanitized,
        vec![
            "dir/one.http".to_string(),
            "two.http".to_string(),
            "..hidden".to_string()
        ]
    );
}

#[test]
fn parse_relative_path_keeps_plain_segments() {
    assert_eq!(
        parse_relative_path("nested/request.http"),
        Ok(vec!["nested".to_string(), "request.http".to_string()])
    );
    assert_eq!(
        parse_relative_path("  ./a//b/./c/  "),
        Ok(vec!["a".to_string(), "b".to_string(), "c".to_string()])
    );
    assert_eq!(
        parse_relative_path("..."),
        Ok(vec!["...".to_string()])
    );
}

#[test]
fn parse_relative_path_names_each_failure() {
    assert_eq!(parse_relative_path(""), Err(ScopeError::EmptyPath));
    assert_eq!(parse_relative_path(" \t\n"), Err(ScopeError::EmptyPath));
    assert_eq!(
        parse_relative_path("a/.."),
        Err(ScopeError::EscapingSegment {
            input: "a/..".to_string()
        })
    );
    assert_eq!(
        parse_relative_path(" /abs "),
        Err(ScopeError::EscapingSegment {
            input: " /abs ".to_string()
        })
    );
    assert_eq!(
        parse_relative_path("./."),
        Err(ScopeError::NoSegments {
            input: "./.".to_string()
        })
    );
}

#[test]
fn parse_failures_are_invalid_input_with_their_message() {
    let empty = parse_relative_path("").unwrap_err();
    assert_eq!(empty.kind(), FailureKind::InvalidInput);
    assert_eq!(empty.message(), "Relative path is empty");
    let escaping = parse_relative_path("../secret").unwrap_err();
    assert_eq!(escaping.kind(), FailureKind::InvalidInput);
    assert_eq!(
        escaping.message(),
        "Invalid relative path '../secret': parent and absolute segments are not allowed"
    );
    let nothing = parse_relative_path(".").unwrap_err();
    assert_eq!(nothing.message(), "Invalid relative path '.'");
}

#[test]
fn ensure_within_root_compares_whole_segments() {
    assert!(ensure_within_root("/a/b", "/a/b").is_ok());
    assert!(ensure_within_root("/a/b", "/a/b/c/d.http").is_ok());
    assert!(ensure_within_root("/a/b/", "/a//b/./c").is_ok());
    assert!(ensure_within_root("/", "/anything").is_ok());
    assert!(ensure_within_root("/a/b", "/a/bc").is_err());
    assert!(ensure_within_root("/a/b", "/a").is_err());
    assert!(ensure_within_root("/a/b", "a/b/c").is_err());
    assert!(ensure_within_root("/a/b", "/a/b/../c").is_ok());
}

#[test]
fn ensure_within_root_reports_both_paths() {
    let error = ensure_within_root("/root/ws", "/tmp/outside.http").unwrap_err();
    assert_eq!(
        error,
        ScopeError::OutsideRoot {
            root: "/root/ws".to_string(),
            resolved: "/tmp/outside.http".to_string()
        }
    );
    assert_eq!(error.kind(), FailureKind::SecurityViolation);
    assert_eq!(
        error.message(),
        "Resolved path is outside scope root. root=/root/ws, resolved=/tmp/outside.http"
    );
}

#[test]
fn relative_path_is_the_rest_below_the_base() {
    assert_eq!(relative_path("/w", "/w/A/secret"), "A/secret");
    assert_eq!(relative_path("/w", "/w"), ".");
    assert_eq!(relative_path("/w", "/elsewhere/A"), ".");
    assert_eq!(relative_path("/w/A", "/w"), ".");
    assert_eq!(relative_path("/w", "/w/back\\slash/x"), "back/slash/x");
    assert_eq!(relative_path("/", "/x/y"), "x/y");
}

#[test]
fn identifiers_are_kind_colon_normalized_path() {
    assert_eq!(normalize_path("a\\b\\c/d"), "a/b/c/d");
    assert_eq!(normalize_path(""), "");
    assert_eq!(make_id("workspace", "C:\\work\\space"), "workspace:C:/work/space");
    assert_eq!(make_id("request", "/w/a/one.http"), "request:/w/a/one.http");
}

#[test]
fn join_path_puts_one_separator_between() {
    assert_eq!(join_path("/w", "a"), "/w/a");
    assert_eq!(join_path("/w/", "a"), "/w/a");
    assert_eq!(join_path("/", "a"), "/a");
    assert_eq!(join_path("", "a"), "a");
}

#[test]
fn parse_relative_path_separates_at_slashes_alone() {
    assert_eq!(parse_relative_path("a\\b"), Ok(vec!["a\\b".to_string()]));
    assert_eq!(parse_relative_path("C:x"), Ok(vec!["C:x".to_string()]));
    assert_eq!(
        parse_relative_path("nested\\request.http"),
        Ok(vec!["nested\\request.http".to_string()])
    );
    assert_eq!(
        parse_relative_path("..\\x/y"),
        Ok(vec!["..\\x".to_string(), "y".to_string()])
    );
    assert_eq!(
        parse_relative_path("a/C:b"),
        Ok(vec!["a".to_string(), "C:b".to_string()])
    );
}
