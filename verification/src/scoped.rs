//! Scoped reads and writes: which file a relative path may reach below a
//! root, decided step by step from what the caller finds on disk.
//!
//! The library never touches the file system. It hands the caller a request
//! (look at this path, create this directory, resolve this path), the caller
//! answers with an event, and the next request follows, until a path is
//! accepted or the operation fails.

use crate::error::{ScopeError, ScopeErrorView};
use crate::model::PathStatus;
use crate::paths::{
    descended, ensure_within_root, is_plain_name, is_within, join_path, joined,
    lemma_descended_stays_within, lemma_joined_stays_within, lemma_within_itself,
    parse_relative_path, parsed_relative,
};
use crate::text::strings;
use vstd::prelude::*;
use vstd::string::StringExecFns;

verus! {

/// What the caller found when it carried out a request.
#[derive(Debug, PartialEq, Eq)]
pub enum FsEvent {
    /// What the inspected path is, without following a symlink.
    Status(PathStatus),
    /// The directory was created.
    Created,
    /// The canonical form of the path that was to be resolved.
    Resolved(String),
}

/// What an `FsEvent` holds, as plain text.
pub enum FsEventView {
    Status(PathStatus),
    Created,
    Resolved(Seq<char>),
}

impl View for FsEvent {
    type V = FsEventView;

    open spec fn view(&self) -> FsEventView {
        match self {
            FsEvent::Status(status) => FsEventView::Status(*status),
            FsEvent::Created => FsEventView::Created,
            FsEvent::Resolved(path) => FsEventView::Resolved(path@),
        }
    }
}

/// What the caller is asked to do with a path.
#[derive(Clone, Copy, Debug, PartialEq, Eq, Structural)]
pub enum FsRequestKind {
    /// Look at the path without following a symlink, and report its status.
    Inspect,
    /// Create the path as a plain directory, and report that it was created.
    CreateDirectory,
    /// Resolve the path to its canonical form, and report that form.
    Resolve,
    /// The operation is over: this is the path to read or to write.
    Accept,
}

/// A request to the caller.
#[derive(Debug, PartialEq, Eq)]
pub struct FsRequest {
    pub kind: FsRequestKind,
    pub path: String,
}

/// What an `FsRequest` holds, as plain text.
pub struct FsRequestView {
    pub kind: FsRequestKind,
    pub path: Seq<char>,
}

impl View for FsRequest {
    type V = FsRequestView;

    open spec fn view(&self) -> FsRequestView {
        FsRequestView { kind: self.kind, path: self.path@ }
    }
}

/// What a scoped read is waiting for.
#[derive(Clone, Copy, Debug, PartialEq, Eq, Structural)]
pub enum ReadStage {
    /// The status of the target.
    Status,
    /// The canonical form of the target.
    Resolution,
    /// Nothing: a path was accepted.
    Done,
}

/// A scoped read in progress.
#[derive(Debug, PartialEq, Eq)]
pub struct ScopedRead {
    root: String,
    target: String,
    stage: ReadStage,
}

/// What a `ScopedRead` holds, as plain text.
pub struct ScopedReadView {
    pub root: Seq<char>,
    pub target: Seq<char>,
    pub stage: ReadStage,
}

impl View for ScopedRead {
    type V = ScopedReadView;

    closed spec fn view(&self) -> ScopedReadView {
        ScopedReadView { root: self.root@, target: self.target@, stage: self.stage }
    }
}

/// What a step of a scoped read gives, as plain text.
pub open spec fn read_outcome(
    r: Result<(ScopedRead, FsRequest), ScopeError>,
) -> Result<(ScopedReadView, FsRequestView), ScopeErrorView> {
    match r {
        Ok((state, request)) => Ok((state@, request@)),
        Err(e) => Err(e@),
    }
}

/// How a scoped read starts: the relative path is parsed and put below the
/// root, and the caller is asked to look at the result.
pub open spec fn read_begin(root: Seq<char>, relative: Seq<char>) -> Result<
    (ScopedReadView, FsRequestView),
    ScopeErrorView,
> {
    match parsed_relative(relative) {
        Err(e) => Err(e),
        Ok(segments) => {
            let target = descended(root, segments);
            Ok(
                (
                    ScopedReadView { root, target, stage: ReadStage::Status },
                    FsRequestView { kind: FsRequestKind::Inspect, path: target },
                ),
            )
        },
    }
}

/// How a scoped read goes on. A target that is missing, a directory or
/// something else is accepted as it is: nothing is opened through it. A
/// symlink or a file is resolved first, and accepted in its canonical form
/// only if that lies within the root.
pub open spec fn read_step(state: ScopedReadView, event: FsEventView) -> Result<
    (ScopedReadView, FsRequestView),
    ScopeErrorView,
> {
    match (state.stage, event) {
        (ReadStage::Status, FsEventView::Status(status)) => {
            if status == PathStatus::Symlink || status == PathStatus::File {
                Ok(
                    (
                        ScopedReadView { stage: ReadStage::Resolution, ..state },
                        FsRequestView { kind: FsRequestKind::Resolve, path: state.target },
                    ),
                )
            } else {
                Ok(
                    (
                        ScopedReadView { stage: ReadStage::Done, ..state },
                        FsRequestView { kind: FsRequestKind::Accept, path: state.target },
                    ),
                )
            }
        },
        (ReadStage::Resolution, FsEventView::Resolved(resolved)) => {
            if is_within(state.root, resolved) {
                Ok(
                    (
                        ScopedReadView { stage: ReadStage::Done, ..state },
                        FsRequestView { kind: FsRequestKind::Accept, path: resolved },
                    ),
                )
            } else {
                Err(ScopeErrorView::OutsideRoot { root: state.root, resolved })
            }
        },
        _ => Err(ScopeErrorView::OutOfTurn),
    }
}

/// `base` with each of `segments` below the one before.
pub fn descend(base: &str, segments: &Vec<String>) -> (r: String)
    ensures
        r@ == descended(base@, strings(segments@)),
{
    let mut out = String::from_str(base);
    let mut i: usize = 0;
    proof {
        assert(strings(segments@).take(0) =~= Seq::<Seq<char>>::empty());
    }
    while i < segments.len()
        invariant
            i <= segments.len(),
            out@ == descended(base@, strings(segments@).take(i as int)),
        decreases segments.len() - i,
    {
        proof {
            assert(strings(segments@).take(i + 1).drop_last() =~= strings(segments@).take(
                i as int,
            ));
            assert(strings(segments@).take(i + 1).last() == segments@[i as int]@);
        }
        out = join_path(out.as_str(), segments[i].as_str());
        i += 1;
    }
    proof {
        assert(strings(segments@).take(segments.len() as int) =~= strings(segments@));
    }
    out
}

/// Starts a scoped read of `relative_path` below `root`, a canonical
/// directory. Fails where the relative path is refused; else asks the caller
/// to inspect the target.
pub fn resolve_scoped_read_path(root: &str, relative_path: &str) -> (r: Result<
    (ScopedRead, FsRequest),
    ScopeError,
>)
    ensures
        read_outcome(r) == read_begin(root@, relative_path@),
        r matches Ok((_, request)) ==> is_within(root@, request@.path),
{
    match parse_relative_path(relative_path) {
        Err(e) => Err(e),
        Ok(segments) => {
            let target = descend(root, &segments);
            proof {
                lemma_within_itself(root@);
                lemma_descended_stays_within(root@, root@, strings(segments@));
            }
            let request = FsRequest { kind: FsRequestKind::Inspect, path: target.clone() };
            Ok((ScopedRead { root: String::from_str(root), target, stage: ReadStage::Status }, request))
        },
    }
}

impl ScopedRead {
    /// Takes the caller's answer to the last request and gives the next
    /// request. The read is over when the request is to accept a path, and
    /// when it fails.
    pub fn advance(self, event: FsEvent) -> (r: Result<(ScopedRead, FsRequest), ScopeError>)
        ensures
            read_outcome(r) == read_step(self@, event@),
    {
        let ScopedRead { root, target, stage } = self;
        match (stage, event) {
            (ReadStage::Status, FsEvent::Status(status)) => {
                let kind = match status {
                    PathStatus::Symlink => FsRequestKind::Resolve,
                    PathStatus::File => FsRequestKind::Resolve,
                    _ => FsRequestKind::Accept,
                };
                let next = match status {
                    PathStatus::Symlink => ReadStage::Resolution,
                    PathStatus::File => ReadStage::Resolution,
                    _ => ReadStage::Done,
                };
                let request = FsRequest { kind, path: target.clone() };
                Ok((ScopedRead { root, target, stage: next }, request))
            },
            (ReadStage::Resolution, FsEvent::Resolved(resolved)) => {
                match ensure_within_root(root.as_str(), resolved.as_str()) {
                    Err(e) => Err(e),
                    Ok(()) => {
                        let request = FsRequest { kind: FsRequestKind::Accept, path: resolved };
                        Ok((ScopedRead { root, target, stage: ReadStage::Done }, request))
                    },
                }
            },
            _ => Err(ScopeError::OutOfTurn),
        }
    }
}

/// What is read at a path that a scoped read accepted, given what the path
/// leads to when symlinks are followed: nothing where nothing is there, the
/// file where it is a regular file, and no other thing.
pub open spec fn read_target(path: Seq<char>, status: PathStatus) -> Result<bool, ScopeErrorView> {
    match status {
        PathStatus::Missing => Ok(false),
        PathStatus::File => Ok(true),
        _ => Err(ScopeErrorView::NotAFile { path }),
    }
}

/// Tells whether there is a file to read at `path`, which a scoped read
/// accepted and which leads to `status` when symlinks are followed. A path
/// that leads nowhere is no failure: there is nothing to read. One that
/// leads to anything but a regular file is refused.
pub fn read_scoped_text_file(path: &str, status: PathStatus) -> (r: Result<bool, ScopeError>)
    ensures
        match r {
            Ok(present) => read_target(path@, status) == Ok::<bool, ScopeErrorView>(present),
            Err(e) => read_target(path@, status) == Err::<bool, ScopeErrorView>(e@),
        },
{
    match status {
        PathStatus::Missing => Ok(false),
        PathStatus::File => Ok(true),
        _ => Err(ScopeError::NotAFile { path: String::from_str(path) }),
    }
}

/// A symlink or a file is never accepted as it was found: it is resolved
/// first. And a resolved path outside the root is refused as a security
/// violation, so a symlink below the root that points outside it cannot be
/// read.
pub proof fn lemma_read_refuses_escape(state: ScopedReadView, resolved: Seq<char>)
    requires
        state.stage == ReadStage::Status,
    ensures
        read_step(state, FsEventView::Status(PathStatus::Symlink)) matches Ok((next, request))
            && request.kind == FsRequestKind::Resolve && next.stage == ReadStage::Resolution
            && next.root == state.root && (!is_within(state.root, resolved) ==> read_step(
            next,
            FsEventView::Resolved(resolved),
        ) == Err::<(ScopedReadView, FsRequestView), ScopeErrorView>(
            ScopeErrorView::OutsideRoot { root: state.root, resolved },
        )),
        (ScopeErrorView::OutsideRoot { root: state.root, resolved }).kind()
            == crate::error::FailureKind::SecurityViolation,
{
}

/// Whatever the events, a path that a scoped read accepts after resolving
/// it lies within the root.
pub proof fn lemma_read_accepts_within(state: ScopedReadView, event: FsEventView)
    requires
        state.stage == ReadStage::Resolution,
    ensures
        read_step(state, event) matches Ok((_, request)) ==> request.kind == FsRequestKind::Accept
            && is_within(state.root, request.path),
{
}

/// What a scoped write is waiting for.
#[derive(Clone, Copy, Debug, PartialEq, Eq, Structural)]
pub enum WriteStage {
    /// The status of a directory above the target.
    ParentStatus,
    /// Word that such a directory was created.
    ParentCreated,
    /// The canonical form of such a directory.
    ParentResolution,
    /// The status of the target.
    TargetStatus,
    /// The canonical form of the target, which is a symlink.
    TargetResolution,
    /// Nothing: the target was accepted.
    Done,
}

/// A scoped write in progress.
#[derive(Debug, PartialEq, Eq)]
pub struct ScopedWrite {
    root: String,
    current: String,
    probe: String,
    parents: Vec<String>,
    file_name: String,
    stage: WriteStage,
}

/// What a `ScopedWrite` holds, as plain text.
pub struct ScopedWriteView {
    /// The canonical directory that the write must stay in.
    pub root: Seq<char>,
    /// The directory reached so far, in canonical form.
    pub current: Seq<char>,
    /// The path that the last request was about.
    pub probe: Seq<char>,
    /// The directories still to go through, outermost first.
    pub parents: Seq<Seq<char>>,
    /// The name of the file to write.
    pub file_name: Seq<char>,
    pub stage: WriteStage,
}

impl View for ScopedWrite {
    type V = ScopedWriteView;

    closed spec fn view(&self) -> ScopedWriteView {
        ScopedWriteView {
            root: self.root@,
            current: self.current@,
            probe: self.probe@,
            parents: strings(self.parents@),
            file_name: self.file_name@,
            stage: self.stage,
        }
    }
}

/// What a step of a scoped write gives, as plain text.
pub open spec fn write_outcome(
    r: Result<(ScopedWrite, FsRequest), ScopeError>,
) -> Result<(ScopedWriteView, FsRequestView), ScopeErrorView> {
    match r {
        Ok((state, request)) => Ok((state@, request@)),
        Err(e) => Err(e@),
    }
}

/// Where a scoped write goes once it stands in `current`: into the next
/// directory above the target, or to the target itself.
pub open spec fn write_descend(state: ScopedWriteView, current: Seq<char>) -> (
    ScopedWriteView,
    FsRequestView,
) {
    if state.parents.len() > 0 {
        let probe = joined(current, state.parents[0]);
        (
            ScopedWriteView {
                current,
                probe,
                parents: state.parents.drop_first(),
                stage: WriteStage::ParentStatus,
                ..state
            },
            FsRequestView { kind: FsRequestKind::Inspect, path: probe },
        )
    } else {
        let probe = joined(current, state.file_name);
        (
            ScopedWriteView { current, probe, stage: WriteStage::TargetStatus, ..state },
            FsRequestView { kind: FsRequestKind::Inspect, path: probe },
        )
    }
}

/// How a scoped write starts: the relative path is parsed, its last segment
/// is the file to write, and the walk through the others starts at the root.
pub open spec fn write_begin(root: Seq<char>, relative: Seq<char>) -> Result<
    (ScopedWriteView, FsRequestView),
    ScopeErrorView,
> {
    match parsed_relative(relative) {
        Err(e) => Err(e),
        Ok(segments) => Ok(
            write_descend(
                ScopedWriteView {
                    root,
                    current: root,
                    probe: root,
                    parents: segments.drop_last(),
                    file_name: segments.last(),
                    stage: WriteStage::ParentStatus,
                },
                root,
            ),
        ),
    }
}

/// How a scoped write goes on.
///
/// A directory above the target is looked at without following a symlink. A
/// symlink there ends the write, and so does anything that is no directory.
/// A missing one is created. Then the directory is resolved, and the write
/// goes on from its canonical form only if that lies within the root.
///
/// The target may be missing or a regular file. Where it is a symlink it is
/// resolved, and the write is allowed only if what it points to lies within
/// the root. A directory or anything else there ends the write.
pub open spec fn write_step(state: ScopedWriteView, event: FsEventView) -> Result<
    (ScopedWriteView, FsRequestView),
    ScopeErrorView,
> {
    match (state.stage, event) {
        (WriteStage::ParentStatus, FsEventView::Status(status)) => match status {
            PathStatus::Symlink => Err(ScopeErrorView::SymlinkedDirectory { path: state.probe }),
            PathStatus::Missing => Ok(
                (
                    ScopedWriteView { stage: WriteStage::ParentCreated, ..state },
                    FsRequestView { kind: FsRequestKind::CreateDirectory, path: state.probe },
                ),
            ),
            PathStatus::Directory => Ok(
                (
                    ScopedWriteView { stage: WriteStage::ParentResolution, ..state },
                    FsRequestView { kind: FsRequestKind::Resolve, path: state.probe },
                ),
            ),
            _ => Err(ScopeErrorView::NotADirectory { path: state.probe }),
        },
        (WriteStage::ParentCreated, FsEventView::Created) => Ok(
            (
                ScopedWriteView { stage: WriteStage::ParentResolution, ..state },
                FsRequestView { kind: FsRequestKind::Resolve, path: state.probe },
            ),
        ),
        (WriteStage::ParentResolution, FsEventView::Resolved(resolved)) => {
            if is_within(state.root, resolved) {
                Ok(write_descend(state, resolved))
            } else {
                Err(ScopeErrorView::OutsideRoot { root: state.root, resolved })
            }
        },
        (WriteStage::TargetStatus, FsEventView::Status(status)) => match status {
            PathStatus::Symlink => Ok(
                (
                    ScopedWriteView { stage: WriteStage::TargetResolution, ..state },
                    FsRequestView { kind: FsRequestKind::Resolve, path: state.probe },
                ),
            ),
            PathStatus::Directory => Err(ScopeErrorView::TargetIsDirectory { path: state.probe }),
            PathStatus::Other => Err(ScopeErrorView::NotARegularFile { path: state.probe }),
            _ => Ok(
                (
                    ScopedWriteView { stage: WriteStage::Done, ..state },
                    FsRequestView { kind: FsRequestKind::Accept, path: state.probe },
                ),
            ),
        },
        (WriteStage::TargetResolution, FsEventView::Resolved(resolved)) => {
            if is_within(state.root, resolved) {
                Ok(
                    (
                        ScopedWriteView { stage: WriteStage::Done, ..state },
                        FsRequestView { kind: FsRequestKind::Accept, path: state.probe },
                    ),
                )
            } else {
                Err(ScopeErrorView::OutsideRoot { root: state.root, resolved })
            }
        },
        _ => Err(ScopeErrorView::OutOfTurn),
    }
}

/// Tells whether a scoped write is where it may be: the directory reached
/// lies within the root, the path in question is a name directly below that
/// directory, and only names are left to go through.
pub open spec fn write_confined(state: ScopedWriteView) -> bool {
    &&& is_within(state.root, state.current)
    &&& is_within(state.current, state.probe)
    &&& is_within(state.root, state.probe)
    &&& is_plain_name(state.file_name)
    &&& forall|i: int| 0 <= i < state.parents.len() ==> is_plain_name(#[trigger] state.parents[i])
}

/// Going on from a directory within the root keeps the write confined.
pub proof fn lemma_write_descend_confined(state: ScopedWriteView, current: Seq<char>)
    requires
        is_within(state.root, current),
        is_plain_name(state.file_name),
        forall|i: int| 0 <= i < state.parents.len() ==> is_plain_name(#[trigger] state.parents[i]),
    ensures
        write_confined(write_descend(state, current).0),
        write_descend(state, current).1.path == write_descend(state, current).0.probe,
{
    if state.parents.len() > 0 {
        lemma_joined_stays_within(state.root, current, state.parents[0]);
        let rest = state.parents.drop_first();
        assert forall|i: int| 0 <= i < rest.len() implies is_plain_name(#[trigger] rest[i]) by {
            assert(rest[i] == state.parents[i + 1]);
        }
    } else {
        lemma_joined_stays_within(state.root, current, state.file_name);
    }
}

/// A confined write stays confined whatever the caller reports, and every
/// path that it asks the caller to inspect, create, resolve or write lies
/// within the root, segment by segment.
pub proof fn lemma_write_stays_confined(state: ScopedWriteView, event: FsEventView)
    requires
        write_confined(state),
    ensures
        write_step(state, event) matches Ok((next, request)) ==> write_confined(next)
            && next.root == state.root && request.path == next.probe && is_within(
            state.root,
            request.path,
        ),
{
    match (state.stage, event) {
        (WriteStage::ParentResolution, FsEventView::Resolved(resolved)) => {
            if is_within(state.root, resolved) {
                lemma_write_descend_confined(state, resolved);
            }
        },
        _ => {},
    }
}

/// A symlink in the place of a directory above the target ends the write
/// with a security violation, wherever the symlink points.
pub proof fn lemma_write_refuses_symlinked_parent(state: ScopedWriteView)
    requires
        state.stage == WriteStage::ParentStatus,
    ensures
        write_step(state, FsEventView::Status(PathStatus::Symlink)) == Err::<
            (ScopedWriteView, FsRequestView),
            ScopeErrorView,
        >(ScopeErrorView::SymlinkedDirectory { path: state.probe }),
        (ScopeErrorView::SymlinkedDirectory { path: state.probe }).kind()
            == crate::error::FailureKind::SecurityViolation,
{
}

/// A write is accepted through a symlink only where the symlink resolves to
/// a path within the root.
pub proof fn lemma_write_through_symlink(state: ScopedWriteView, resolved: Seq<char>)
    requires
        state.stage == WriteStage::TargetStatus,
    ensures
        write_step(state, FsEventView::Status(PathStatus::Symlink)) matches Ok((next, request))
            && request.kind == FsRequestKind::Resolve && (write_step(
            next,
            FsEventView::Resolved(resolved),
        ) is Ok <==> is_within(state.root, resolved)),
{
}

/// The path that a write arrives at where nothing is in its way: every
/// directory above the target is there or is created, and resolves to the
/// very path that it was reached by.
pub open spec fn plain_write_target(state: ScopedWriteView) -> Seq<char>
    decreases
            state.parents.len(),
            (if state.stage == WriteStage::ParentStatus {
                1int
            } else {
                0int
            }),
{
    if state.stage == WriteStage::ParentStatus {
        plain_write_target(write_descend(state, state.probe).0)
    } else {
        state.probe
    }
}

/// A directory that is there and resolves to itself takes a confined write
/// one level down, in two steps; a missing one that is created, in three.
pub proof fn lemma_write_plain_level(state: ScopedWriteView)
    requires
        state.stage == WriteStage::ParentStatus,
        write_confined(state),
    ensures
        ({
            let found = write_step(state, FsEventView::Status(PathStatus::Directory));
            &&& found matches Ok((waiting, request)) && request == (FsRequestView {
                kind: FsRequestKind::Resolve,
                path: state.probe,
            }) && write_step(waiting, FsEventView::Resolved(state.probe)) == Ok::<
                (ScopedWriteView, FsRequestView),
                ScopeErrorView,
            >(write_descend(state, state.probe))
        }),
        ({
            let missing = write_step(state, FsEventView::Status(PathStatus::Missing));
            &&& missing matches Ok((making, request)) && request == (FsRequestView {
                kind: FsRequestKind::CreateDirectory,
                path: state.probe,
            }) && (write_step(making, FsEventView::Created) matches Ok((waiting, asked)) && asked
                == (FsRequestView { kind: FsRequestKind::Resolve, path: state.probe })
                && write_step(waiting, FsEventView::Resolved(state.probe)) == Ok::<
                (ScopedWriteView, FsRequestView),
                ScopeErrorView,
            >(write_descend(state, state.probe)))
        }),
{
}

/// Names put below a directory one after the other: the first may as well
/// be put there before the others.
pub proof fn lemma_descended_first(base: Seq<char>, first: Seq<char>, rest: Seq<Seq<char>>)
    ensures
        descended(joined(base, first), rest) == descended(base, seq![first] + rest),
    decreases rest.len(),
{
    let all = seq![first] + rest;
    if rest.len() == 0 {
        assert(all.drop_last() =~= Seq::<Seq<char>>::empty());
        assert(all.last() == first);
        assert(descended(base, all.drop_last()) == base);
    } else {
        lemma_descended_first(base, first, rest.drop_last());
        assert(all.drop_last() =~= seq![first] + rest.drop_last());
        assert(all.last() == rest.last());
    }
}

/// Where nothing is in its way, a write that waits for a directory arrives
/// at the names that are left, put below that directory one after the
/// other.
pub proof fn lemma_plain_write_target(state: ScopedWriteView)
    requires
        state.stage == WriteStage::ParentStatus || state.stage == WriteStage::TargetStatus,
    ensures
        state.stage == WriteStage::ParentStatus ==> plain_write_target(state) == descended(
            state.probe,
            state.parents.push(state.file_name),
        ),
        state.stage == WriteStage::TargetStatus ==> plain_write_target(state) == state.probe,
    decreases
            state.parents.len(),
            (if state.stage == WriteStage::ParentStatus {
                1int
            } else {
                0int
            }),
{
    if state.stage == WriteStage::ParentStatus {
        let next = write_descend(state, state.probe).0;
        lemma_plain_write_target(next);
        let names = state.parents.push(state.file_name);
        if state.parents.len() > 0 {
            lemma_descended_first(
                state.probe,
                state.parents[0],
                state.parents.drop_first().push(state.file_name),
            );
            assert(seq![state.parents[0]] + state.parents.drop_first().push(state.file_name)
                =~= names);
        } else {
            assert(names.drop_last() =~= Seq::<Seq<char>>::empty());
            assert(names.last() == state.file_name);
            assert(descended(state.probe, names.drop_last()) == state.probe);
        }
    }
}

/// Where nothing is in its way, a write and a read of the same relative
/// path below the same root arrive at the same file: what was written
/// there is what is read.
pub proof fn lemma_write_and_read_agree(root: Seq<char>, relative: Seq<char>)
    requires
        parsed_relative(relative) is Ok,
    ensures
        write_begin(root, relative) matches Ok((write, _)) && read_begin(root, relative) matches Ok(
            (read, _),
        ) && plain_write_target(write) == read.target,
{
    let segments = parsed_relative(relative)->Ok_0;
    let start = ScopedWriteView {
        root,
        current: root,
        probe: root,
        parents: segments.drop_last(),
        file_name: segments.last(),
        stage: WriteStage::ParentStatus,
    };
    let write = write_descend(start, root).0;
    lemma_plain_write_target(start);
    assert(segments.drop_last().push(segments.last()) =~= segments);
}

/// Puts the write into `current` and asks for the next path below it.
fn descend_write(
    root: String,
    current: String,
    parents: Vec<String>,
    file_name: String,
) -> (r: (ScopedWrite, FsRequest))
    ensures
        (r.0@, r.1@) == write_descend(
            ScopedWriteView {
                root: root@,
                current: current@,
                probe: current@,
                parents: strings(parents@),
                file_name: file_name@,
                stage: WriteStage::ParentStatus,
            },
            current@,
        ),
{
    let mut parents = parents;
    if parents.len() > 0 {
        let ghost before = strings(parents@);
        let first = parents.remove(0);
        proof {
            assert(strings(parents@) =~= before.drop_first());
            assert(first@ == before[0]);
        }
        let probe = join_path(current.as_str(), first.as_str());
        let request = FsRequest { kind: FsRequestKind::Inspect, path: probe.clone() };
        (
            ScopedWrite { root, current, probe, parents, file_name, stage: WriteStage::ParentStatus },
            request,
        )
    } else {
        let probe = join_path(current.as_str(), file_name.as_str());
        let request = FsRequest { kind: FsRequestKind::Inspect, path: probe.clone() };
        (
            ScopedWrite { root, current, probe, parents, file_name, stage: WriteStage::TargetStatus },
            request,
        )
    }
}

/// Starts a scoped write to `relative_path` below `root`, a canonical
/// directory. Fails where the relative path is refused; else asks the caller
/// to inspect the first path on the way.
pub fn resolve_scoped_write_path(root: &str, relative_path: &str) -> (r: Result<
    (ScopedWrite, FsRequest),
    ScopeError,
>)
    ensures
        write_outcome(r) == write_begin(root@, relative_path@),
        r matches Ok((state, request)) ==> write_confined(state@) && is_within(
            root@,
            request@.path,
        ),
{
    match parse_relative_path(relative_path) {
        Err(e) => Err(e),
        Ok(segments) => {
            let mut segments = segments;
            let ghost all = strings(segments@);
            let file_name = segments.pop().unwrap();
            proof {
                assert(strings(segments@) =~= all.drop_last());
                assert(file_name@ == all.last());
                assert forall|i: int| 0 <= i < segments@.len() implies is_plain_name(
                    #[trigger] strings(segments@)[i],
                ) by {
                    assert(strings(segments@)[i] == all[i]);
                }
                assert(is_plain_name(all[all.len() - 1]));
                lemma_within_itself(root@);
                lemma_write_descend_confined(
                    ScopedWriteView {
                        root: root@,
                        current: root@,
                        probe: root@,
                        parents: strings(segments@),
                        file_name: file_name@,
                        stage: WriteStage::ParentStatus,
                    },
                    root@,
                );
            }
            Ok(descend_write(String::from_str(root), String::from_str(root), segments, file_name))
        },
    }
}

impl ScopedWrite {
    /// What the write is waiting for: the answer to its last request.
    pub fn stage(&self) -> (r: WriteStage)
        ensures
            r == self@.stage,
    {
        self.stage
    }

    /// Takes the caller's answer to the last request and gives the next
    /// request. The write is over when the request is to accept a path, and
    /// when it fails.
    pub fn advance(self, event: FsEvent) -> (r: Result<(ScopedWrite, FsRequest), ScopeError>)
        ensures
            write_outcome(r) == write_step(self@, event@),
    {
        let ScopedWrite { root, current, probe, parents, file_name, stage } = self;
        match (stage, event) {
            (WriteStage::ParentStatus, FsEvent::Status(status)) => match status {
                PathStatus::Symlink => Err(ScopeError::SymlinkedDirectory { path: probe }),
                PathStatus::Missing => {
                    let request = FsRequest {
                        kind: FsRequestKind::CreateDirectory,
                        path: probe.clone(),
                    };
                    Ok(
                        (
                            ScopedWrite {
                                root,
                                current,
                                probe,
                                parents,
                                file_name,
                                stage: WriteStage::ParentCreated,
                            },
                            request,
                        ),
                    )
                },
                PathStatus::Directory => {
                    let request = FsRequest { kind: FsRequestKind::Resolve, path: probe.clone() };
                    Ok(
                        (
                            ScopedWrite {
                                root,
                                current,
                                probe,
                                parents,
                                file_name,
                                stage: WriteStage::ParentResolution,
                            },
                            request,
                        ),
                    )
                },
                _ => Err(ScopeError::NotADirectory { path: probe }),
            },
            (WriteStage::ParentCreated, FsEvent::Created) => {
                let request = FsRequest { kind: FsRequestKind::Resolve, path: probe.clone() };
                Ok(
                    (
                        ScopedWrite {
                            root,
                            current,
                            probe,
                            parents,
                            file_name,
                            stage: WriteStage::ParentResolution,
                        },
                        request,
                    ),
                )
            },
            (WriteStage::ParentResolution, FsEvent::Resolved(resolved)) => {
                match ensure_within_root(root.as_str(), resolved.as_str()) {
                    Err(e) => Err(e),
                    Ok(()) => Ok(descend_write(root, resolved, parents, file_name)),
                }
            },
            (WriteStage::TargetStatus, FsEvent::Status(status)) => match status {
                PathStatus::Symlink => {
                    let request = FsRequest { kind: FsRequestKind::Resolve, path: probe.clone() };
                    Ok(
                        (
                            ScopedWrite {
                                root,
                                current,
                                probe,
                                parents,
                                file_name,
                                stage: WriteStage::TargetResolution,
                            },
                            request,
                        ),
                    )
                },
                PathStatus::Directory => Err(ScopeError::TargetIsDirectory { path: probe }),
                PathStatus::Other => Err(ScopeError::NotARegularFile { path: probe }),
                _ => {
                    let request = FsRequest { kind: FsRequestKind::Accept, path: probe.clone() };
                    Ok(
                        (
                            ScopedWrite {
                                root,
                                current,
                                probe,
                                parents,
                                file_name,
                                stage: WriteStage::Done,
                            },
                            request,
                        ),
                    )
                },
            },
            (WriteStage::TargetResolution, FsEvent::Resolved(resolved)) => {
                match ensure_within_root(root.as_str(), resolved.as_str()) {
                    Err(e) => Err(e),
                    Ok(()) => {
                        let request = FsRequest {
                            kind: FsRequestKind::Accept,
                            path: probe.clone(),
                        };
                        Ok(
                            (
                                ScopedWrite {
                                    root,
                                    current,
                                    probe,
                                    parents,
                                    file_name,
                                    stage: WriteStage::Done,
                                },
                                request,
                            ),
                        )
                    },
                }
            },
            _ => Err(ScopeError::OutOfTurn),
        }
    }
}

} // verus!
