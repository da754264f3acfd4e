use eshttp::error::{FailureKind, ScopeError};
use eshttp::model::PathStatus;
use eshttp::scoped::{
    descend, read_scoped_text_file, resolve_scoped_read_path, resolve_scoped_write_path, FsEvent,
    FsRequest, FsRequestKind, WriteStage,
};

fn request(kind: FsRequestKind, path: &str) -> FsRequest {
    FsRequest {
        kind,
        path: path.to_string(),
    }
}

#[test]
fn scoped_read_rejects_symlink_escape() {
    // /root/linked.http is a symlink to /external/outside.http.
    let (read, asked) = resolve_scoped_read_path("/root", "linked.http").unwrap();
    assert_eq!(asked, request(FsRequestKind::Inspect, "/root/linked.http"));
    let (read, asked) = read.advance(FsEvent::Status(PathStatus::Symlink)).unwrap();
    assert_eq!(asked, request(FsRequestKind::Resolve, "/root/linked.http"));
    let result = read.advance(FsEvent::Resolved("/external/outside.http".to_string()));
    assert!(result.is_err(), "expected symlink escape to be rejected");
    let error = result.unwrap_err();
    assert_eq!(
        error,
        ScopeError::OutsideRoot {
            root: "/root".to_string(),
            resolved: "/external/outside.http".to_string(),
        }
    );
    assert_eq!(error.kind(), FailureKind::SecurityViolation);
}

#[test]
fn scoped_read_accepts_a_file_in_canonical_form() {
    let (read, asked) = resolve_scoped_read_path("/root/", " ./nested//request.http ").unwrap();
    assert_eq!(asked, request(FsRequestKind::Inspect, "/root/nested/request.http"));
    let (read, asked) = read.advance(FsEvent::Status(PathStatus::File)).unwrap();
    assert_eq!(asked, request(FsRequestKind::Resolve, "/root/nested/request.http"));
    let (read, asked) = read
        .advance(FsEvent::Resolved("/root/real/request.http".to_string()))
        .unwrap();
    assert_eq!(asked, request(FsRequestKind::Accept, "/root/real/request.http"));
    assert_eq!(
        read.advance(FsEvent::Status(PathStatus::File)).unwrap_err(),
        ScopeError::OutOfTurn
    );
}

#[test]
fn scoped_read_accepts_a_symlink_that_stays_inside() {
    let (read, _) = resolve_scoped_read_path("/root", "alias.http").unwrap();
    let (read, _) = read.advance(FsEvent::Status(PathStatus::Symlink)).unwrap();
    let (_, asked) = read
        .advance(FsEvent::Resolved("/root/real.http".to_string()))
        .unwrap();
    assert_eq!(asked, request(FsRequestKind::Accept, "/root/real.http"));
}

#[test]
fn scoped_read_hands_back_what_is_missing_or_no_file() {
    for status in [PathStatus::Missing, PathStatus::Directory, PathStatus::Other] {
        let (read, _) = resolve_scoped_read_path("/root", "a/b").unwrap();
        let (_, asked) = read.advance(FsEvent::Status(status)).unwrap();
        assert_eq!(asked, request(FsRequestKind::Accept, "/root/a/b"));
    }
}

#[test]
fn scoped_read_refuses_bad_paths_and_events() {
    assert_eq!(
        resolve_scoped_read_path("/root", "../x").unwrap_err(),
        ScopeError::EscapingSegment {
            input: "../x".to_string()
        }
    );
    assert_eq!(
        resolve_scoped_read_path("/root", " ").unwrap_err(),
        ScopeError::EmptyPath
    );
    let (read, _) = resolve_scoped_read_path("/root", "a").unwrap();
    assert_eq!(
        read.advance(FsEvent::Resolved("/root/a".to_string())).unwrap_err(),
        ScopeError::OutOfTurn
    );
    let (read, _) = resolve_scoped_read_path("/root", "a").unwrap();
    assert_eq!(read.advance(FsEvent::Created).unwrap_err(), ScopeError::OutOfTurn);
}

#[test]
fn scoped_write_rejects_symlink_parent_escape() {
    // /root/linked is a symlink to /external.
    let (write, asked) = resolve_scoped_write_path("/root", "linked/new.http").unwrap();
    assert_eq!(asked, request(FsRequestKind::Inspect, "/root/linked"));
    let result = write.advance(FsEvent::Status(PathStatus::Symlink));
    assert!(result.is_err(), "expected symlinked parent to be rejected");
    let error = result.unwrap_err();
    assert_eq!(
        error,
        ScopeError::SymlinkedDirectory {
            path: "/root/linked".to_string()
        }
    );
    assert_eq!(error.kind(), FailureKind::SecurityViolation);
    assert_eq!(
        error.message(),
        "Refusing to write through symlinked directory /root/linked"
    );
}

#[test]
fn scoped_write_allows_regular_path_within_root() {
    // Nothing exists below the root yet.
    let (write, asked) = resolve_scoped_write_path("/root", "nested/request.http").unwrap();
    assert_eq!(asked, request(FsRequestKind::Inspect, "/root/nested"));
    let (write, asked) = write.advance(FsEvent::Status(PathStatus::Missing)).unwrap();
    assert_eq!(asked, request(FsRequestKind::CreateDirectory, "/root/nested"));
    let (write, asked) = write.advance(FsEvent::Created).unwrap();
    assert_eq!(asked, request(FsRequestKind::Resolve, "/root/nested"));
    let (write, asked) = write
        .advance(FsEvent::Resolved("/root/nested".to_string()))
        .unwrap();
    assert_eq!(asked, request(FsRequestKind::Inspect, "/root/nested/request.http"));
    let (write, asked) = write.advance(FsEvent::Status(PathStatus::Missing)).unwrap();
    assert_eq!(asked, request(FsRequestKind::Accept, "/root/nested/request.http"));
    assert_eq!(
        write.advance(FsEvent::Created).unwrap_err(),
        ScopeError::OutOfTurn
    );
}

#[test]
fn scoped_write_goes_on_from_the_canonical_directory() {
    let (write, asked) = resolve_scoped_write_path("/root", "a/b/c.http").unwrap();
    assert_eq!(asked, request(FsRequestKind::Inspect, "/root/a"));
    let (write, asked) = write.advance(FsEvent::Status(PathStatus::Directory)).unwrap();
    assert_eq!(asked, request(FsRequestKind::Resolve, "/root/a"));
    // The directory has another canonical name below the root.
    let (write, asked) = write
        .advance(FsEvent::Resolved("/root/real-a".to_string()))
        .unwrap();
    assert_eq!(asked, request(FsRequestKind::Inspect, "/root/real-a/b"));
    let (write, _) = write.advance(FsEvent::Status(PathStatus::Directory)).unwrap();
    let (write, asked) = write
        .advance(FsEvent::Resolved("/root/real-a/b".to_string()))
        .unwrap();
    assert_eq!(asked, request(FsRequestKind::Inspect, "/root/real-a/b/c.http"));
    let (_, asked) = write.advance(FsEvent::Status(PathStatus::File)).unwrap();
    assert_eq!(asked, request(FsRequestKind::Accept, "/root/real-a/b/c.http"));
}

#[test]
fn scoped_write_stops_when_a_directory_resolves_outside() {
    let (write, _) = resolve_scoped_write_path("/root", "a/c.http").unwrap();
    let (write, _) = write.advance(FsEvent::Status(PathStatus::Directory)).unwrap();
    let error = write
        .advance(FsEvent::Resolved("/elsewhere/a".to_string()))
        .unwrap_err();
    assert_eq!(
        error,
        ScopeError::OutsideRoot {
            root: "/root".to_string(),
            resolved: "/elsewhere/a".to_string(),
        }
    );
}

#[test]
fn scoped_write_refuses_a_parent_that_is_no_directory() {
    for status in [PathStatus::File, PathStatus::Other] {
        let (write, _) = resolve_scoped_write_path("/root", "a/c.http").unwrap();
        let error = write.advance(FsEvent::Status(status)).unwrap_err();
        assert_eq!(
            error,
            ScopeError::NotADirectory {
                path: "/root/a".to_string()
            }
        );
        assert_eq!(error.message(), "Path segment is not a directory: /root/a");
    }
}

#[test]
fn scoped_write_checks_a_symlinked_target() {
    let (write, asked) = resolve_scoped_write_path("/root", "c.http").unwrap();
    assert_eq!(asked, request(FsRequestKind::Inspect, "/root/c.http"));
    let (write, asked) = write.advance(FsEvent::Status(PathStatus::Symlink)).unwrap();
    assert_eq!(asked, request(FsRequestKind::Resolve, "/root/c.http"));
    // Inside: the write goes to the path as it was asked for.
    let (_, asked) = write
        .advance(FsEvent::Resolved("/root/real.http".to_string()))
        .unwrap();
    assert_eq!(asked, request(FsRequestKind::Accept, "/root/c.http"));

    let (write, _) = resolve_scoped_write_path("/root", "c.http").unwrap();
    let (write, _) = write.advance(FsEvent::Status(PathStatus::Symlink)).unwrap();
    let error = write
        .advance(FsEvent::Resolved("/etc/passwd".to_string()))
        .unwrap_err();
    assert_eq!(error.kind(), FailureKind::SecurityViolation);
}

#[test]
fn scoped_write_refuses_a_target_that_is_no_file() {
    let (write, _) = resolve_scoped_write_path("/root", "c.http").unwrap();
    let error = write.advance(FsEvent::Status(PathStatus::Directory)).unwrap_err();
    assert_eq!(
        error,
        ScopeError::TargetIsDirectory {
            path: "/root/c.http".to_string()
        }
    );
    assert_eq!(error.message(), "Target path is a directory: /root/c.http");
    let (write, _) = resolve_scoped_write_path("/root", "c.http").unwrap();
    let error = write.advance(FsEvent::Status(PathStatus::Other)).unwrap_err();
    assert_eq!(
        error,
        ScopeError::NotARegularFile {
            path: "/root/c.http".to_string()
        }
    );
    assert_eq!(
        error.message(),
        "Target path is not a regular file: /root/c.http"
    );
}

#[test]
fn scoped_write_refuses_bad_paths() {
    assert!(resolve_scoped_write_path("/root", "/abs/c.http").is_err());
    assert!(resolve_scoped_write_path("/root", "a/../../c.http").is_err());
    assert!(resolve_scoped_write_path("/root", "").is_err());
    assert_eq!(
        resolve_scoped_write_path("/root", ".").unwrap_err(),
        ScopeError::NoSegments {
            input: ".".to_string()
        }
    );
}

#[test]
fn descend_joins_each_segment_below_the_last() {
    assert_eq!(
        descend("/root", &vec!["a".to_string(), "b".to_string()]),
        "/root/a/b"
    );
    assert_eq!(descend("/", &vec!["a".to_string()]), "/a");
    assert_eq!(descend("/root", &vec![]), "/root");
}

#[test]
fn scoped_read_reads_regular_files_only() {
    assert_eq!(read_scoped_text_file("/root/a.http", PathStatus::File), Ok(true));
    assert_eq!(read_scoped_text_file("/root/a.http", PathStatus::Missing), Ok(false));
    for status in [PathStatus::Directory, PathStatus::Other, PathStatus::Symlink] {
        let error = read_scoped_text_file("/root/a", status).unwrap_err();
        assert_eq!(
            error,
            ScopeError::NotAFile {
                path: "/root/a".to_string()
            }
        );
        assert_eq!(error.message(), "Target is not a regular file: /root/a");
        assert_eq!(error.kind(), FailureKind::IoFailure);
    }
}

#[test]
fn scoped_write_tells_what_it_waits_for() {
    let (write, _) = resolve_scoped_write_path("/root", "a/c.http").unwrap();
    assert_eq!(write.stage(), WriteStage::ParentStatus);
    let (write, _) = write.advance(FsEvent::Status(PathStatus::Missing)).unwrap();
    assert_eq!(write.stage(), WriteStage::ParentCreated);
    let (write, _) = write.advance(FsEvent::Created).unwrap();
    assert_eq!(write.stage(), WriteStage::ParentResolution);
    let (write, _) = write.advance(FsEvent::Resolved("/root/a".to_string())).unwrap();
    assert_eq!(write.stage(), WriteStage::TargetStatus);
    let (write, _) = write.advance(FsEvent::Status(PathStatus::Symlink)).unwrap();
    assert_eq!(write.stage(), WriteStage::TargetResolution);
    let (write, _) = write.advance(FsEvent::Resolved("/root/b".to_string())).unwrap();
    assert_eq!(write.stage(), WriteStage::Done);
}
