//! The failures that the library reports.

use vstd::prelude::*;
use vstd::string::StringExecFns;

verus! {

/// The broad classes that failures fall into.
#[derive(Clone, Copy, Debug, PartialEq, Eq, Structural)]
pub enum FailureKind {
    /// The caller handed in something malformed.
    InvalidInput,
    /// A path would leave its root, or a write would go through a symlink.
    SecurityViolation,
    /// The file system did not hold what the operation needs.
    IoFailure,
    /// A discovery configuration could not be understood.
    ConfigParseFailure,
}

/// A failure, with the paths it is about.
#[derive(Debug, PartialEq, Eq)]
pub enum ScopeError {
    /// A relative path that is empty or white space only.
    EmptyPath,
    /// A relative path with a parent segment or a leading separator.
    EscapingSegment { input: String },
    /// A relative path that names nothing.
    NoSegments { input: String },
    /// A resolved path that lies outside its root.
    OutsideRoot { root: String, resolved: String },
    /// A write whose parent directory is a symlink.
    SymlinkedDirectory { path: String },
    /// A write whose parent exists and is no directory.
    NotADirectory { path: String },
    /// A write whose target is a directory.
    TargetIsDirectory { path: String },
    /// A write whose target exists and is no regular file.
    NotARegularFile { path: String },
    /// A read whose target exists and is no regular file.
    NotAFile { path: String },
    /// An environment name without characters.
    EmptyEnvironmentName,
    /// An environment name with a character outside `[A-Za-z0-9_.-]`.
    InvalidEnvironmentName { name: String },
    /// A discovery configuration that exists and could not be read.
    ConfigUnreadable { path: String, cause: String },
    /// A discovery configuration that could not be parsed.
    ConfigMalformed { path: String, cause: String },
    /// A directory whose entries could not be listed.
    DirectoryUnreadable { path: String, cause: String },
    /// Version control could not tell whether a path is in a repository.
    RepositoryProbeFailed { path: String, detail: String },
    /// Version control could not stage the paths.
    StagingFailed { detail: String },
    /// Version control could not commit the paths.
    CommitFailed { detail: String },
    /// An event that the operation was not waiting for.
    OutOfTurn,
}

/// What a `ScopeError` holds, as plain text.
pub enum ScopeErrorView {
    EmptyPath,
    EscapingSegment { input: Seq<char> },
    NoSegments { input: Seq<char> },
    OutsideRoot { root: Seq<char>, resolved: Seq<char> },
    SymlinkedDirectory { path: Seq<char> },
    NotADirectory { path: Seq<char> },
    TargetIsDirectory { path: Seq<char> },
    NotARegularFile { path: Seq<char> },
    NotAFile { path: Seq<char> },
    EmptyEnvironmentName,
    InvalidEnvironmentName { name: Seq<char> },
    ConfigUnreadable { path: Seq<char>, cause: Seq<char> },
    ConfigMalformed { path: Seq<char>, cause: Seq<char> },
    DirectoryUnreadable { path: Seq<char>, cause: Seq<char> },
    RepositoryProbeFailed { path: Seq<char>, detail: Seq<char> },
    StagingFailed { detail: Seq<char> },
    CommitFailed { detail: Seq<char> },
    OutOfTurn,
}

impl View for ScopeError {
    type V = ScopeErrorView;

    open spec fn view(&self) -> ScopeErrorView {
        match self {
            ScopeError::EmptyPath => ScopeErrorView::EmptyPath,
            ScopeError::EscapingSegment { input } => ScopeErrorView::EscapingSegment {
                input: input@,
            },
            ScopeError::NoSegments { input } => ScopeErrorView::NoSegments { input: input@ },
            ScopeError::OutsideRoot { root, resolved } => ScopeErrorView::OutsideRoot {
                root: root@,
                resolved: resolved@,
            },
            ScopeError::SymlinkedDirectory { path } => ScopeErrorView::SymlinkedDirectory {
                path: path@,
            },
            ScopeError::NotADirectory { path } => ScopeErrorView::NotADirectory { path: path@ },
            ScopeError::TargetIsDirectory { path } => ScopeErrorView::TargetIsDirectory {
                path: path@,
            },
            ScopeError::NotARegularFile { path } => ScopeErrorView::NotARegularFile {
                path: path@,
            },
            ScopeError::NotAFile { path } => ScopeErrorView::NotAFile { path: path@ },
            ScopeError::EmptyEnvironmentName => ScopeErrorView::EmptyEnvironmentName,
            ScopeError::InvalidEnvironmentName { name } => ScopeErrorView::InvalidEnvironmentName {
                name: name@,
            },
            ScopeError::ConfigUnreadable { path, cause } => ScopeErrorView::ConfigUnreadable {
                path: path@,
                cause: cause@,
            },
            ScopeError::ConfigMalformed { path, cause } => ScopeErrorView::ConfigMalformed {
                path: path@,
                cause: cause@,
            },
            ScopeError::DirectoryUnreadable { path, cause } => ScopeErrorView::DirectoryUnreadable {
                path: path@,
                cause: cause@,
            },
            ScopeError::RepositoryProbeFailed { path, detail } =>
                ScopeErrorView::RepositoryProbeFailed { path: path@, detail: detail@ },
            ScopeError::StagingFailed { detail } => ScopeErrorView::StagingFailed {
                detail: detail@,
            },
            ScopeError::CommitFailed { detail } => ScopeErrorView::CommitFailed { detail: detail@ },
            ScopeError::OutOfTurn => ScopeErrorView::OutOfTurn,
        }
    }
}

impl ScopeErrorView {
    /// The class that the failure falls into.
    pub open spec fn kind(self) -> FailureKind {
        match self {
            ScopeErrorView::EmptyPath => FailureKind::InvalidInput,
            ScopeErrorView::EscapingSegment { .. } => FailureKind::InvalidInput,
            ScopeErrorView::NoSegments { .. } => FailureKind::InvalidInput,
            ScopeErrorView::OutsideRoot { .. } => FailureKind::SecurityViolation,
            ScopeErrorView::SymlinkedDirectory { .. } => FailureKind::SecurityViolation,
            ScopeErrorView::NotADirectory { .. } => FailureKind::IoFailure,
            ScopeErrorView::TargetIsDirectory { .. } => FailureKind::IoFailure,
            ScopeErrorView::NotARegularFile { .. } => FailureKind::IoFailure,
            ScopeErrorView::NotAFile { .. } => FailureKind::IoFailure,
            ScopeErrorView::EmptyEnvironmentName => FailureKind::InvalidInput,
            ScopeErrorView::InvalidEnvironmentName { .. } => FailureKind::InvalidInput,
            ScopeErrorView::ConfigUnreadable { .. } => FailureKind::IoFailure,
            ScopeErrorView::ConfigMalformed { .. } => FailureKind::ConfigParseFailure,
            ScopeErrorView::DirectoryUnreadable { .. } => FailureKind::IoFailure,
            ScopeErrorView::RepositoryProbeFailed { .. } => FailureKind::IoFailure,
            ScopeErrorView::StagingFailed { .. } => FailureKind::IoFailure,
            ScopeErrorView::CommitFailed { .. } => FailureKind::IoFailure,
            ScopeErrorView::OutOfTurn => FailureKind::InvalidInput,
        }
    }

    /// The sentence that describes the failure.
    pub open spec fn message(self) -> Seq<char> {
        match self {
            ScopeErrorView::EmptyPath => "Relative path is empty"@,
            ScopeErrorView::EscapingSegment { input } => "Invalid relative path '"@ + input
                + "': parent and absolute segments are not allowed"@,
            ScopeErrorView::NoSegments { input } => "Invalid relative path '"@ + input + "'"@,
            ScopeErrorView::OutsideRoot { root, resolved } =>
                "Resolved path is outside scope root. root="@ + root + ", resolved="@ + resolved,
            ScopeErrorView::SymlinkedDirectory { path } =>
                "Refusing to write through symlinked directory "@ + path,
            ScopeErrorView::NotADirectory { path } => "Path segment is not a directory: "@ + path,
            ScopeErrorView::TargetIsDirectory { path } => "Target path is a directory: "@ + path,
            ScopeErrorView::NotARegularFile { path } => "Target path is not a regular file: "@
                + path,
            ScopeErrorView::NotAFile { path } => "Target is not a regular file: "@ + path,
            ScopeErrorView::EmptyEnvironmentName => "Environment name is empty"@,
            ScopeErrorView::InvalidEnvironmentName { name } => "Invalid environment name: "@
                + name,
            ScopeErrorView::ConfigUnreadable { path, cause } => "Failed to read "@ + path + ": "@
                + cause,
            ScopeErrorView::ConfigMalformed { path, cause } => "Failed to parse "@ + path + ": "@
                + cause,
            ScopeErrorView::DirectoryUnreadable { path, cause } => "Failed to read directory "@
                + path + ": "@ + cause,
            ScopeErrorView::RepositoryProbeFailed { path, detail } =>
                "Failed to detect git repository for "@ + path + ": "@ + detail,
            ScopeErrorView::StagingFailed { detail } => "git add failed: "@ + detail,
            ScopeErrorView::CommitFailed { detail } => "git commit failed: "@ + detail,
            ScopeErrorView::OutOfTurn => "Event arrived out of turn"@,
        }
    }
}

/// `head`, then `body`.
fn headed(head: &str, body: &str) -> (r: String)
    ensures
        r@ == head@ + body@,
{
    let mut r = String::from_str(head);
    r.append(body);
    r
}

/// `head`, then `body`, then `tail`.
fn framed(head: &str, body: &str, tail: &str) -> (r: String)
    ensures
        r@ == head@ + body@ + tail@,
{
    let mut r = String::from_str(head);
    r.append(body);
    r.append(tail);
    r
}

/// `head`, `first`, `middle` and `second`, one after the other.
fn framed_pair(head: &str, first: &str, middle: &str, second: &str) -> (r: String)
    ensures
        r@ == head@ + first@ + middle@ + second@,
{
    let mut r = String::from_str(head);
    r.append(first);
    r.append(middle);
    r.append(second);
    r
}

impl ScopeError {
    /// The class that the failure falls into.
    pub fn kind(&self) -> (r: FailureKind)
        ensures
            r == self@.kind(),
    {
        match self {
            ScopeError::EmptyPath => FailureKind::InvalidInput,
            ScopeError::EscapingSegment { .. } => FailureKind::InvalidInput,
            ScopeError::NoSegments { .. } => FailureKind::InvalidInput,
            ScopeError::OutsideRoot { .. } => FailureKind::SecurityViolation,
            ScopeError::SymlinkedDirectory { .. } => FailureKind::SecurityViolation,
            ScopeError::NotADirectory { .. } => FailureKind::IoFailure,
            ScopeError::TargetIsDirectory { .. } => FailureKind::IoFailure,
            ScopeError::NotARegularFile { .. } => FailureKind::IoFailure,
            ScopeError::NotAFile { .. } => FailureKind::IoFailure,
            ScopeError::EmptyEnvironmentName => FailureKind::InvalidInput,
            ScopeError::InvalidEnvironmentName { .. } => FailureKind::InvalidInput,
            ScopeError::ConfigUnreadable { .. } => FailureKind::IoFailure,
            ScopeError::ConfigMalformed { .. } => FailureKind::ConfigParseFailure,
            ScopeError::DirectoryUnreadable { .. } => FailureKind::IoFailure,
            ScopeError::RepositoryProbeFailed { .. } => FailureKind::IoFailure,
            ScopeError::StagingFailed { .. } => FailureKind::IoFailure,
            ScopeError::CommitFailed { .. } => FailureKind::IoFailure,
            ScopeError::OutOfTurn => FailureKind::InvalidInput,
        }
    }

    /// The sentence that describes the failure.
    pub fn message(&self) -> (r: String)
        ensures
            r@ == self@.message(),
    {
        match self {
            ScopeError::EmptyPath => String::from_str("Relative path is empty"),
            ScopeError::EscapingSegment { input } => framed(
                "Invalid relative path '",
                input.as_str(),
                "': parent and absolute segments are not allowed",
            ),
            ScopeError::NoSegments { input } => framed(
                "Invalid relative path '",
                input.as_str(),
                "'",
            ),
            ScopeError::OutsideRoot { root, resolved } => framed_pair(
                "Resolved path is outside scope root. root=",
                root.as_str(),
                ", resolved=",
                resolved.as_str(),
            ),
            ScopeError::SymlinkedDirectory { path } => headed(
                "Refusing to write through symlinked directory ",
                path.as_str(),
            ),
            ScopeError::NotADirectory { path } => headed(
                "Path segment is not a directory: ",
                path.as_str(),
            ),
            ScopeError::TargetIsDirectory { path } => headed(
                "Target path is a directory: ",
                path.as_str(),
            ),
            ScopeError::NotARegularFile { path } => headed(
                "Target path is not a regular file: ",
                path.as_str(),
            ),
            ScopeError::NotAFile { path } => headed(
                "Target is not a regular file: ",
                path.as_str(),
            ),
            ScopeError::EmptyEnvironmentName => String::from_str("Environment name is empty"),
            ScopeError::InvalidEnvironmentName { name } => headed(
                "Invalid environment name: ",
                name.as_str(),
            ),
            ScopeError::ConfigUnreadable { path, cause } => framed_pair(
                "Failed to read ",
                path.as_str(),
                ": ",
                cause.as_str(),
            ),
            ScopeError::ConfigMalformed { path, cause } => framed_pair(
                "Failed to parse ",
                path.as_str(),
                ": ",
                cause.as_str(),
            ),
            ScopeError::DirectoryUnreadable { path, cause } => framed_pair(
                "Failed to read directory ",
                path.as_str(),
                ": ",
                cause.as_str(),
            ),
            ScopeError::RepositoryProbeFailed { path, detail } => framed_pair(
                "Failed to detect git repository for ",
                path.as_str(),
                ": ",
                detail.as_str(),
            ),
            ScopeError::StagingFailed { detail } => headed("git add failed: ", detail.as_str()),
            ScopeError::CommitFailed { detail } => headed("git commit failed: ", detail.as_str()),
            ScopeError::OutOfTurn => String::from_str("Event arrived out of turn"),
        }
    }
}

} // verus!
