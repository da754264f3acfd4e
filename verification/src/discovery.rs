//! Collection discovery: the walk through a workspace, decided step by step
//! from what the caller finds on disk.
//!
//! The library never touches the file system. It asks the caller for the
//! configuration of a directory, then for its entries, and goes on to the
//! next directory, until every directory within reach was visited once.

use crate::config::{
    active_view, effective_config, is_entry, is_included, matches_entries, path_included,
    ActiveConfig, ActiveConfigView, DiscoveryConfig, DiscoveryConfigView,
};
use crate::error::{ScopeError, ScopeErrorView};
use crate::model::{
    collections_view, entries_view, Collection, CollectionView, DirEntry,
    DirEntryView, EntryKind, Workspace, WorkspaceView,
};
use crate::order::{
    insertion_point, lemma_place_found, lemma_placed_is_insert, sorted_by_key,
};
use crate::paths::{
    dot, ensure_within_root, id_text, is_within, join_path, joined, make_id, relative_path,
    relative_text,
};
use crate::text::{chars_of, holds_text, strings, texts};
use vstd::prelude::*;
use vstd::string::StringExecFns;

verus! {

/// The name of the file that holds a directory's discovery configuration.
pub open spec fn config_file_name() -> Seq<char> {
    ".eshttp.json"@
}

/// The path of the discovery configuration of `dir`.
pub open spec fn config_path(dir: Seq<char>) -> Seq<char> {
    joined(dir, config_file_name())
}

/// The end of the name of every request file.
pub open spec fn request_suffix() -> Seq<char> {
    seq!['.', 'h', 't', 't', 'p']
}

/// Tells whether `name` is the name of a request file.
pub open spec fn is_request_name(name: Seq<char>) -> bool {
    request_suffix().is_suffix_of(name)
}

/// Tells whether `entry` is a request file: a regular file, no symlink,
/// whose name is valid text and ends as request files do.
pub open spec fn is_request_file(entry: DirEntryView) -> bool {
    entry.kind == EntryKind::File && entry.name is Some && is_request_name(entry.name->0)
}

/// Tells whether a directory with these entries holds request files
/// directly.
pub open spec fn has_request_files(entries: Seq<DirEntryView>) -> bool {
    exists|i: int| 0 <= i < entries.len() && is_request_file(#[trigger] entries[i])
}

/// Tells whether the walk goes into `entry`: a directory, no symlink, that
/// the caller could resolve, and whose canonical path lies within the root.
pub open spec fn is_subdirectory(entry: DirEntryView, root: Seq<char>) -> bool {
    entry.kind == EntryKind::Directory && entry.resolved is Some && is_within(
        root,
        entry.resolved->0,
    )
}

/// A directory that waits to be visited, with the configuration that it
/// inherits.
#[derive(Debug, PartialEq, Eq)]
pub struct PendingDirectory {
    dir: String,
    inherited: Option<ActiveConfig>,
}

/// What a `PendingDirectory` holds, as plain text.
pub struct PendingView {
    pub dir: Seq<char>,
    pub inherited: Option<ActiveConfigView>,
}

impl View for PendingDirectory {
    type V = PendingView;

    closed spec fn view(&self) -> PendingView {
        PendingView { dir: self.dir@, inherited: active_view(self.inherited) }
    }
}

/// What the pending directories of `v` hold.
pub open spec fn pending_view(v: Seq<PendingDirectory>) -> Seq<PendingView> {
    Seq::new(v.len(), |i: int| v[i]@)
}

/// The directories that a listing adds to those that wait, the first entry
/// of the listing last, so that it is visited first. Each inherits `active`.
pub open spec fn queued(
    entries: Seq<DirEntryView>,
    root: Seq<char>,
    active: Option<ActiveConfigView>,
) -> Seq<PendingView>
    decreases entries.len(),
{
    if entries.len() == 0 {
        Seq::empty()
    } else {
        let rest = queued(entries.drop_first(), root, active);
        if is_subdirectory(entries[0], root) {
            rest.push(PendingView { dir: entries[0].resolved->0, inherited: active })
        } else {
            rest
        }
    }
}

/// Tells whether the configuration in force keeps the walk out of `dir`.
/// The patterns are matched against the path from the workspace root; one
/// that excludes and ends in `/**` keeps out the directory it names too.
/// Where no configuration is in force, nothing is kept out.
pub open spec fn is_pruned(
    active: Option<ActiveConfigView>,
    root: Seq<char>,
    dir: Seq<char>,
) -> bool {
    active is Some && !is_included(active->0.config, relative_text(root, dir))
}

/// Tells whether `dir`, with these entries, becomes a collection: it holds
/// request files directly and, where a configuration is in force, its path
/// from the directory of that configuration is an entry of it.
pub open spec fn is_promoted(
    entries: Seq<DirEntryView>,
    active: Option<ActiveConfigView>,
    dir: Seq<char>,
) -> bool {
    has_request_files(entries) && (active is Some ==> is_entry(
        active->0.config,
        relative_text(active->0.origin_dir, dir),
    ))
}

/// The name of the collection at `dir`: the workspace's name for the root
/// itself, else the path from the root.
pub open spec fn collection_name(workspace: WorkspaceView, root: Seq<char>, dir: Seq<char>) -> Seq<
    char,
> {
    if relative_text(root, dir) == dot() {
        workspace.name
    } else {
        relative_text(root, dir)
    }
}

/// The collection at `dir`.
pub open spec fn collection_for(
    workspace: WorkspaceView,
    root: Seq<char>,
    dir: Seq<char>,
) -> CollectionView {
    CollectionView {
        id: id_text("collection"@, workspace.id.push('/') + relative_text(root, dir)),
        workspace_id: workspace.id,
        name: collection_name(workspace, root, dir),
        uri: dir,
    }
}

/// The key that collections are sorted by: the name.
pub open spec fn collection_key() -> spec_fn(CollectionView) -> Seq<char> {
    |c: CollectionView| c.name
}

/// What a walk is waiting for.
#[derive(Clone, Copy, Debug, PartialEq, Eq, Structural)]
pub enum WalkStage {
    /// The configuration of the current directory.
    Config,
    /// The entries of the current directory.
    Listing,
    /// Nothing: the walk is over.
    Done,
}

/// A walk in progress.
#[derive(Debug, PartialEq, Eq)]
pub struct Walk {
    workspace: Workspace,
    root: String,
    pending: Vec<PendingDirectory>,
    visited: Vec<String>,
    found: Vec<Collection>,
    dir: String,
    active: Option<ActiveConfig>,
    stage: WalkStage,
}

/// What a `Walk` holds, as plain text.
pub struct WalkView {
    pub workspace: WorkspaceView,
    /// The canonical root of the workspace.
    pub root: Seq<char>,
    /// The directories that wait to be visited. The last one is next.
    pub pending: Seq<PendingView>,
    /// The directories visited so far, in canonical form.
    pub visited: Seq<Seq<char>>,
    /// The collections found so far.
    pub found: Seq<CollectionView>,
    /// The directory that the walk stands in.
    pub dir: Seq<char>,
    /// The configuration that the directory inherits, while its own is
    /// awaited; the one in force in it, once that has arrived.
    pub active: Option<ActiveConfigView>,
    pub stage: WalkStage,
}

impl View for Walk {
    type V = WalkView;

    closed spec fn view(&self) -> WalkView {
        WalkView {
            workspace: self.workspace@,
            root: self.root@,
            pending: pending_view(self.pending@),
            visited: strings(self.visited@),
            found: collections_view(self.found@),
            dir: self.dir@,
            active: active_view(self.active),
            stage: self.stage,
        }
    }
}

/// What the caller found when it carried out a request of the walk.
#[derive(Debug, PartialEq, Eq)]
pub enum WalkEvent {
    /// The configuration of the directory, or word that it has none.
    Config(Option<DiscoveryConfig>),
    /// The configuration file is there and could not be read.
    ConfigUnreadable(String),
    /// The configuration file could not be parsed.
    ConfigMalformed(String),
    /// The entries of the directory.
    Listing(Vec<DirEntry>),
    /// The entries of the directory could not be listed.
    ListingFailed(String),
}

/// What a `WalkEvent` holds, as plain text.
pub enum WalkEventView {
    Config(Option<DiscoveryConfigView>),
    ConfigUnreadable(Seq<char>),
    ConfigMalformed(Seq<char>),
    Listing(Seq<DirEntryView>),
    ListingFailed(Seq<char>),
}

impl View for WalkEvent {
    type V = WalkEventView;

    open spec fn view(&self) -> WalkEventView {
        match self {
            WalkEvent::Config(Some(config)) => WalkEventView::Config(Some(config@)),
            WalkEvent::Config(None) => WalkEventView::Config(None),
            WalkEvent::ConfigUnreadable(cause) => WalkEventView::ConfigUnreadable(cause@),
            WalkEvent::ConfigMalformed(cause) => WalkEventView::ConfigMalformed(cause@),
            WalkEvent::Listing(entries) => WalkEventView::Listing(entries_view(entries@)),
            WalkEvent::ListingFailed(cause) => WalkEventView::ListingFailed(cause@),
        }
    }
}

/// A request of the walk to the caller.
#[derive(Debug, PartialEq, Eq)]
pub enum WalkRequest {
    /// Load the configuration file at this path, if there is one.
    LoadConfig(String),
    /// List the entries of this directory.
    ListDirectory(String),
    /// The walk is over: these are the collections, sorted by name.
    Finish(Vec<Collection>),
}

/// What a `WalkRequest` holds, as plain text.
pub enum WalkRequestView {
    LoadConfig(Seq<char>),
    ListDirectory(Seq<char>),
    Finish(Seq<CollectionView>),
}

impl View for WalkRequest {
    type V = WalkRequestView;

    open spec fn view(&self) -> WalkRequestView {
        match self {
            WalkRequest::LoadConfig(path) => WalkRequestView::LoadConfig(path@),
            WalkRequest::ListDirectory(dir) => WalkRequestView::ListDirectory(dir@),
            WalkRequest::Finish(found) => WalkRequestView::Finish(collections_view(found@)),
        }
    }
}

/// What a step of a walk gives, as plain text.
pub open spec fn walk_outcome(r: Result<(Walk, WalkRequest), ScopeError>) -> Result<
    (WalkView, WalkRequestView),
    ScopeErrorView,
> {
    match r {
        Ok((state, request)) => Ok((state@, request@)),
        Err(e) => Err(e@),
    }
}

/// How a walk goes on to the next directory. Directories that wait and were
/// visited already are passed over. The first one that was not is checked
/// against the root, marked as visited, and its configuration is asked for.
/// Where none is left, the walk is over, and the collections are handed out
/// sorted by name.
pub open spec fn walk_next(w: WalkView) -> Result<(WalkView, WalkRequestView), ScopeErrorView>
    decreases w.pending.len(),
{
    if w.pending.len() == 0 {
        Ok(
            (
                WalkView { found: Seq::empty(), stage: WalkStage::Done, ..w },
                WalkRequestView::Finish(sorted_by_key(w.found, collection_key())),
            ),
        )
    } else {
        let top = w.pending.last();
        let rest = w.pending.drop_last();
        if w.visited.contains(top.dir) {
            walk_next(WalkView { pending: rest, ..w })
        } else if !is_within(w.root, top.dir) {
            Err(ScopeErrorView::OutsideRoot { root: w.root, resolved: top.dir })
        } else {
            Ok(
                (
                    WalkView {
                        pending: rest,
                        visited: w.visited.push(top.dir),
                        dir: top.dir,
                        active: top.inherited,
                        stage: WalkStage::Config,
                        ..w
                    },
                    WalkRequestView::LoadConfig(config_path(top.dir)),
                ),
            )
        }
    }
}

/// How a walk starts: only the root waits, and it inherits nothing.
pub open spec fn walk_start(workspace: WorkspaceView, root: Seq<char>) -> WalkView {
    WalkView {
        workspace,
        root,
        pending: seq![PendingView { dir: root, inherited: None }],
        visited: Seq::empty(),
        found: Seq::empty(),
        dir: root,
        active: None,
        stage: WalkStage::Done,
    }
}

/// How a walk goes on.
///
/// When the configuration of the directory arrives, it replaces the
/// inherited one; where the directory has none, the inherited one stays in
/// force. A directory that the configuration in force keeps out is left at
/// once: it is neither listed nor descended into. A configuration that
/// cannot be read or parsed ends the whole walk.
///
/// When the entries arrive, the directory becomes a collection if it is
/// promoted, and its subdirectories wait to be visited with the
/// configuration in force. A listing that failed ends the whole walk.
pub open spec fn walk_step(w: WalkView, event: WalkEventView) -> Result<
    (WalkView, WalkRequestView),
    ScopeErrorView,
> {
    match (w.stage, event) {
        (WalkStage::Config, WalkEventView::Config(local)) => {
            let effective = effective_config(w.active, w.dir, local);
            if is_pruned(effective, w.root, w.dir) {
                walk_next(WalkView { active: effective, ..w })
            } else {
                Ok(
                    (
                        WalkView { active: effective, stage: WalkStage::Listing, ..w },
                        WalkRequestView::ListDirectory(w.dir),
                    ),
                )
            }
        },
        (WalkStage::Config, WalkEventView::ConfigUnreadable(cause)) => Err(
            ScopeErrorView::ConfigUnreadable { path: config_path(w.dir), cause },
        ),
        (WalkStage::Config, WalkEventView::ConfigMalformed(cause)) => Err(
            ScopeErrorView::ConfigMalformed { path: config_path(w.dir), cause },
        ),
        (WalkStage::Listing, WalkEventView::Listing(entries)) => {
            let found = if is_promoted(entries, w.active, w.dir) {
                w.found.push(collection_for(w.workspace, w.root, w.dir))
            } else {
                w.found
            };
            walk_next(
                WalkView { found, pending: w.pending + queued(entries, w.root, w.active), ..w },
            )
        },
        (WalkStage::Listing, WalkEventView::ListingFailed(cause)) => Err(
            ScopeErrorView::DirectoryUnreadable { path: w.dir, cause },
        ),
        _ => Err(ScopeErrorView::OutOfTurn),
    }
}

/// The names of the collections of `v`.
pub open spec fn names_of(v: Seq<CollectionView>) -> Seq<Seq<char>> {
    Seq::new(v.len(), |i: int| v[i].name)
}

/// Sorts collections by name. Collections with the same name keep their
/// order.
pub fn sort_collections(items: Vec<Collection>) -> (r: Vec<Collection>)
    ensures
        collections_view(r@) == sorted_by_key(collections_view(items@), collection_key()),
{
    let mut items = items;
    let ghost all = collections_view(items@);
    let mut out: Vec<Collection> = Vec::new();
    let mut keys: Vec<Vec<char>> = Vec::new();
    proof {
        assert(all.skip(all.len() as int) =~= Seq::<CollectionView>::empty());
        assert(collections_view(out@) =~= Seq::<CollectionView>::empty());
        assert(texts(keys@) =~= names_of(collections_view(out@)));
        assert(all.take(all.len() as int) =~= all);
    }
    while items.len() > 0
        invariant
            items.len() <= all.len(),
            collections_view(items@) == all.take(items.len() as int),
            collections_view(out@) == sorted_by_key(
                all.skip(items.len() as int),
                collection_key(),
            ),
            texts(keys@) == names_of(collections_view(out@)),
        decreases items.len(),
    {
        let ghost n = items.len() as int;
        let ghost before = collections_view(out@);
        let ghost before_items = items@;
        let item = items.pop().unwrap();
        let key = chars_of(item.name.as_str());
        let p = insertion_point(&keys, &key);
        proof {
            assert(item@ == collections_view(before_items)[n - 1]);
            assert(item@ == all[n - 1]);
            assert(all.skip(n - 1)[0] == all[n - 1]);
            assert(all.skip(n - 1).drop_first() =~= all.skip(n));
            assert(collections_view(items@) =~= all.take(n - 1));
            assert(collection_key()(item@) == key@);
            assert(texts(keys@).len() == names_of(before).len());
            assert(keys@.len() == before.len());
            assert forall|j: int| 0 <= j < p implies !crate::order::text_le(
                collection_key()(item@),
                collection_key()(#[trigger] before[j]),
            ) by {
                assert(names_of(before)[j] == before[j].name);
                assert(texts(keys@)[j] == before[j].name);
            }
            if p < keys.len() {
                assert(names_of(before)[p as int] == before[p as int].name);
                assert(texts(keys@)[p as int] == before[p as int].name);
            }
            lemma_place_found(item@, before, collection_key(), p as int);
            lemma_placed_is_insert(item@, before, collection_key());
        }
        let ghost item_view = item@;
        let ghost keys_before = texts(keys@);
        let ghost key_text = key@;
        out.insert(p, item);
        keys.insert(p, key);
        proof {
            assert(collections_view(out@) =~= before.insert(p as int, item_view));
            assert(texts(keys@) =~= keys_before.insert(p as int, key_text));
            assert(names_of(before.insert(p as int, item_view)) =~= names_of(before).insert(
                p as int,
                item_view.name,
            ));
            assert(texts(keys@) =~= names_of(collections_view(out@)));
        }
    }
    proof {
        assert(all.skip(0) =~= all);
    }
    out
}

/// A copy of an optional configuration in force.
fn duplicate_active(active: &Option<ActiveConfig>) -> (r: Option<ActiveConfig>)
    ensures
        active_view(r) == active_view(*active),
{
    match active {
        Some(a) => Some(a.duplicate()),
        None => None,
    }
}

/// Tells whether `name` ends as the names of request files do.
pub fn is_request_file_name(name: &str) -> (r: bool)
    ensures
        r == is_request_name(name@),
{
    let chars = chars_of(name);
    if chars.len() < 5 {
        return false;
    }
    let n = chars.len();
    let r = chars[n - 5] == '.' && chars[n - 4] == 'h' && chars[n - 3] == 't' && chars[n - 2] == 't'
        && chars[n - 1] == 'p';
    proof {
        let tail = name@.subrange(n - 5, n as int);
        if r {
            assert(tail =~= request_suffix());
        } else {
            if tail == request_suffix() {
                assert(tail[0] == '.' && tail[1] == 'h' && tail[2] == 't' && tail[3] == 't'
                    && tail[4] == 'p');
            }
        }
    }
    r
}

/// Tells whether a directory with these entries holds request files
/// directly. Symlinks do not count, whatever they point to.
pub fn holds_request_files(entries: &Vec<DirEntry>) -> (r: bool)
    ensures
        r == has_request_files(entries_view(entries@)),
{
    let mut i: usize = 0;
    while i < entries.len()
        invariant
            i <= entries.len(),
            forall|j: int| 0 <= j < i ==> !is_request_file(#[trigger] entries_view(entries@)[j]),
        decreases entries.len() - i,
    {
        let entry = &entries[i];
        let hit = entry.kind == EntryKind::File && match &entry.name {
            Some(name) => is_request_file_name(name.as_str()),
            None => false,
        };
        proof {
            assert(entries_view(entries@)[i as int] == entry@);
        }
        if hit {
            return true;
        }
        i += 1;
    }
    false
}

/// Makes the collection at `dir`.
fn make_collection(workspace: &Workspace, root: &str, dir: &str) -> (r: Collection)
    ensures
        r@ == collection_for(workspace@, root@, dir@),
{
    let relative = relative_path(root, dir);
    let mut scoped = workspace.id.clone();
    scoped.push('/');
    scoped.append(relative.as_str());
    let here = chars_of(relative.as_str());
    let at_root = here.len() == 1 && here[0] == '.';
    proof {
        if at_root {
            assert(relative@ =~= dot());
        }
    }
    let name = if at_root {
        workspace.name.clone()
    } else {
        relative
    };
    Collection {
        id: make_id("collection", scoped.as_str()),
        workspace_id: workspace.id.clone(),
        name,
        uri: String::from_str(dir),
    }
}

impl Walk {
    /// Goes on to the next directory that waits and was not visited.
    #[verifier::loop_isolation(false)]
    fn proceed(self) -> (r: Result<(Walk, WalkRequest), ScopeError>)
        ensures
            walk_outcome(r) == walk_next(self@),
    {
        let ghost start = self@;
        let Walk { workspace, root, pending, visited, found, dir, active, stage } = self;
        let mut pending = pending;
        loop
            invariant
                walk_next(start) == walk_next(
                    WalkView {
                        workspace: workspace@,
                        root: root@,
                        pending: pending_view(pending@),
                        visited: strings(visited@),
                        found: collections_view(found@),
                        dir: dir@,
                        active: active_view(active),
                        stage: stage,
                    },
                ),
            decreases pending.len(),
        {
            let ghost now = WalkView {
                workspace: workspace@,
                root: root@,
                pending: pending_view(pending@),
                visited: strings(visited@),
                found: collections_view(found@),
                dir: dir@,
                active: active_view(active),
                stage: stage,
            };
            match pending.pop() {
                None => {
                    let sorted = sort_collections(found);
                    let state = Walk {
                        workspace,
                        root,
                        pending,
                        visited,
                        found: Vec::new(),
                        dir,
                        active,
                        stage: WalkStage::Done,
                    };
                    proof {
                        assert(state@.found =~= Seq::<CollectionView>::empty());
                        assert(state@.pending =~= now.pending);
                    }
                    return Ok((state, WalkRequest::Finish(sorted)));
                },
                Some(top) => {
                    proof {
                        assert(top@ == now.pending.last());
                        assert(pending_view(pending@) =~= now.pending.drop_last());
                    }
                    if !holds_text(&visited, &top.dir) {
                        match ensure_within_root(root.as_str(), top.dir.as_str()) {
                            Err(e) => {
                                return Err(e);
                            },
                            Ok(()) => {
                                let ghost seen = strings(visited@);
                                let mut visited = visited;
                                visited.push(top.dir.clone());
                                let path = join_path(top.dir.as_str(), ".eshttp.json");
                                let state = Walk {
                                    workspace,
                                    root,
                                    pending,
                                    visited,
                                    found,
                                    dir: top.dir,
                                    active: top.inherited,
                                    stage: WalkStage::Config,
                                };
                                proof {
                                    assert(state@.visited =~= seen.push(top@.dir));
                                }
                                return Ok((state, WalkRequest::LoadConfig(path)));
                            },
                        }
                    }
                },
            }
        }
    }

    /// Takes the caller's answer to the last request and gives the next
    /// request. The walk is over when the request is to finish, and when it
    /// fails.
    pub fn advance(self, event: WalkEvent) -> (r: Result<(Walk, WalkRequest), ScopeError>)
        ensures
            walk_outcome(r) == walk_step(self@, event@),
    {
        let Walk { workspace, root, pending, visited, found, dir, active, stage } = self;
        match (stage, event) {
            (WalkStage::Config, WalkEvent::Config(local)) => {
                let effective = match local {
                    Some(config) => Some(ActiveConfig { origin_dir: dir.clone(), config }),
                    None => active,
                };
                let pruned = match &effective {
                    Some(a) => {
                        let relative = relative_path(root.as_str(), dir.as_str());
                        !path_included(&a.config, relative.as_str())
                    },
                    None => false,
                };
                if pruned {
                    let state = Walk {
                        workspace,
                        root,
                        pending,
                        visited,
                        found,
                        dir,
                        active: effective,
                        stage,
                    };
                    state.proceed()
                } else {
                    let request = WalkRequest::ListDirectory(dir.clone());
                    Ok(
                        (
                            Walk {
                                workspace,
                                root,
                                pending,
                                visited,
                                found,
                                dir,
                                active: effective,
                                stage: WalkStage::Listing,
                            },
                            request,
                        ),
                    )
                }
            },
            (WalkStage::Config, WalkEvent::ConfigUnreadable(cause)) => Err(
                ScopeError::ConfigUnreadable {
                    path: join_path(dir.as_str(), ".eshttp.json"),
                    cause,
                },
            ),
            (WalkStage::Config, WalkEvent::ConfigMalformed(cause)) => Err(
                ScopeError::ConfigMalformed {
                    path: join_path(dir.as_str(), ".eshttp.json"),
                    cause,
                },
            ),
            (WalkStage::Listing, WalkEvent::Listing(entries)) => {
                let mut found = found;
                let mut pending = pending;
                let ghost listing = entries_view(entries@);
                let ghost waiting = pending_view(pending@);
                let ghost before = collections_view(found@);
                let promoted = holds_request_files(&entries) && match &active {
                    Some(a) => {
                        let relative = relative_path(a.origin_dir.as_str(), dir.as_str());
                        matches_entries(&a.config, relative.as_str())
                    },
                    None => true,
                };
                if promoted {
                    found.push(make_collection(&workspace, root.as_str(), dir.as_str()));
                    proof {
                        assert(collections_view(found@) =~= before.push(
                            collection_for(workspace@, root@, dir@),
                        ));
                    }
                }
                let mut i: usize = entries.len();
                proof {
                    assert(listing.skip(i as int) =~= Seq::<DirEntryView>::empty());
                    assert(pending_view(pending@) =~= waiting + queued(
                        listing.skip(i as int),
                        root@,
                        active_view(active),
                    ));
                }
                while i > 0
                    invariant
                        i <= entries.len(),
                        listing == entries_view(entries@),
                        pending_view(pending@) == waiting + queued(
                            listing.skip(i as int),
                            root@,
                            active_view(active),
                        ),
                    decreases i,
                {
                    i -= 1;
                    let entry = &entries[i];
                    let ghost queue = pending_view(pending@);
                    proof {
                        assert(listing.skip(i as int)[0] == entry@);
                        assert(listing.skip(i as int).drop_first() =~= listing.skip(i + 1));
                    }
                    if entry.kind == EntryKind::Directory {
                        match &entry.resolved {
                            Some(path) => {
                                if ensure_within_root(root.as_str(), path.as_str()).is_ok() {
                                    pending.push(
                                        PendingDirectory {
                                            dir: path.clone(),
                                            inherited: duplicate_active(&active),
                                        },
                                    );
                                    proof {
                                        assert(pending_view(pending@) =~= queue.push(
                                            PendingView {
                                                dir: path@,
                                                inherited: active_view(active),
                                            },
                                        ));
                                    }
                                }
                            },
                            None => {},
                        }
                    }
                    proof {
                        assert(pending_view(pending@) =~= waiting + queued(
                            listing.skip(i as int),
                            root@,
                            active_view(active),
                        ));
                    }
                }
                proof {
                    assert(listing.skip(0) =~= listing);
                }
                let state = Walk { workspace, root, pending, visited, found, dir, active, stage };
                state.proceed()
            },
            (WalkStage::Listing, WalkEvent::ListingFailed(cause)) => Err(
                ScopeError::DirectoryUnreadable { path: dir, cause },
            ),
            _ => Err(ScopeError::OutOfTurn),
        }
    }
}

/// Starts the discovery of the collections of `workspace`, whose canonical
/// root directory is `root`, and asks for the configuration of the root.
pub fn discover_collections(workspace: Workspace, root: &str) -> (r: (Walk, WalkRequest))
    ensures
        walk_next(walk_start(workspace@, root@)) == Ok::<
            (WalkView, WalkRequestView),
            ScopeErrorView,
        >((r.0@, r.1@)),
        r.1@ == WalkRequestView::LoadConfig(config_path(root@)),
{
    let mut visited: Vec<String> = Vec::new();
    visited.push(String::from_str(root));
    let state = Walk {
        workspace,
        root: String::from_str(root),
        pending: Vec::new(),
        visited,
        found: Vec::new(),
        dir: String::from_str(root),
        active: None,
        stage: WalkStage::Config,
    };
    let path = join_path(root, ".eshttp.json");
    proof {
        let start = walk_start(workspace@, root@);
        crate::paths::lemma_within_itself(root@);
        assert(start.pending.last() == PendingView { dir: root@, inherited: None });
        assert(start.pending.drop_last() =~= Seq::<PendingView>::empty());
        assert(state@.pending =~= Seq::<PendingView>::empty());
        assert(state@.visited =~= start.visited.push(root@));
        assert(state@.found =~= Seq::<CollectionView>::empty());
        assert(!start.visited.contains(root@));
    }
    (state, WalkRequest::LoadConfig(path))
}

/// The directories of the collections of `v`.
pub open spec fn uris_of(v: Seq<CollectionView>) -> Seq<Seq<char>> {
    Seq::new(v.len(), |i: int| v[i].uri)
}

/// What holds of a walk at every moment: no directory was visited twice,
/// every visited directory lies within the root, no directory became a
/// collection twice, and only visited directories became collections. While
/// the walk stands in a directory, that directory counts as visited and has
/// not become a collection yet.
pub open spec fn walk_sound(w: WalkView) -> bool {
    &&& w.visited.no_duplicates()
    &&& uris_of(w.found).no_duplicates()
    &&& forall|i: int| 0 <= i < w.found.len() ==> w.visited.contains(#[trigger] w.found[i].uri)
    &&& forall|i: int| 0 <= i < w.visited.len() ==> is_within(w.root, #[trigger] w.visited[i])
    &&& w.stage != WalkStage::Done ==> w.visited.contains(w.dir) && !uris_of(w.found).contains(
        w.dir,
    )
}

/// What holds of a walk between two directories: as `walk_sound`, without
/// the directory that the walk stands in.
pub open spec fn walk_settled(w: WalkView) -> bool {
    &&& w.visited.no_duplicates()
    &&& uris_of(w.found).no_duplicates()
    &&& forall|i: int| 0 <= i < w.found.len() ==> w.visited.contains(#[trigger] w.found[i].uri)
    &&& forall|i: int| 0 <= i < w.visited.len() ==> is_within(w.root, #[trigger] w.visited[i])
}

/// Sorting collections of distinct directories gives collections of distinct
/// directories: the same ones.
pub proof fn lemma_sorted_collections_distinct(found: Seq<CollectionView>)
    requires
        uris_of(found).no_duplicates(),
    ensures
        uris_of(sorted_by_key(found, collection_key())).no_duplicates(),
        sorted_by_key(found, collection_key()).to_multiset() == found.to_multiset(),
        sorted_by_key(found, collection_key()).len() == found.len(),
        crate::order::in_key_order(sorted_by_key(found, collection_key()), collection_key()),
{
    broadcast use vstd::seq_lib::group_to_multiset_ensures;

    let sorted = sorted_by_key(found, collection_key());
    crate::order::lemma_sorted_by_key(found, collection_key());
    assert(found.no_duplicates()) by {
        assert forall|i: int, j: int| 0 <= i < found.len() && 0 <= j < found.len() && i != j implies found[i]
            != found[j] by {
            assert(uris_of(found)[i] == found[i].uri);
            assert(uris_of(found)[j] == found[j].uri);
        }
    }
    found.lemma_multiset_has_no_duplicates();
    sorted.lemma_multiset_has_no_duplicates_conv();
    assert forall|i: int, j: int|
        0 <= i < sorted.len() && 0 <= j < sorted.len() && i != j implies uris_of(sorted)[i]
        != uris_of(sorted)[j] by {
        assert(sorted[i] != sorted[j]);
        assert(sorted.to_multiset().contains(sorted[i]));
        assert(sorted.to_multiset().contains(sorted[j]));
        assert(found.contains(sorted[i]));
        assert(found.contains(sorted[j]));
        let a = choose|a: int| 0 <= a < found.len() && found[a] == sorted[i];
        let b = choose|b: int| 0 <= b < found.len() && found[b] == sorted[j];
        assert(a != b);
        assert(uris_of(found)[a] == found[a].uri);
        assert(uris_of(found)[b] == found[b].uri);
    }
}

/// Going on to the next directory keeps a walk sound. A directory that was
/// visited before is never asked for again: the walk asks for the
/// configuration of a directory only as it marks that directory as visited.
/// And the collections handed out at the end are those found, sorted by
/// name, no directory among them twice.
pub proof fn lemma_walk_next_sound(w: WalkView)
    requires
        walk_settled(w),
    ensures
        walk_next(w) matches Ok((next, request)) ==> {
            &&& walk_sound(next)
            &&& next.root == w.root
            &&& next.workspace == w.workspace
            &&& match request {
                WalkRequestView::LoadConfig(path) => {
                    &&& next.stage == WalkStage::Config
                    &&& path == config_path(next.dir)
                    &&& !w.visited.contains(next.dir)
                    &&& next.visited == w.visited.push(next.dir)
                    &&& next.found == w.found
                },
                WalkRequestView::ListDirectory(_) => false,
                WalkRequestView::Finish(found) => {
                    &&& next.stage == WalkStage::Done
                    &&& next.visited == w.visited
                    &&& found == sorted_by_key(w.found, collection_key())
                    &&& uris_of(found).no_duplicates()
                    &&& found.to_multiset() == w.found.to_multiset()
                },
            }
        },
    decreases w.pending.len(),
{
    if w.pending.len() == 0 {
        lemma_sorted_collections_distinct(w.found);
        let next = WalkView { found: Seq::empty(), stage: WalkStage::Done, ..w };
        assert(uris_of(next.found) =~= Seq::<Seq<char>>::empty());
    } else {
        let top = w.pending.last();
        let rest = w.pending.drop_last();
        if w.visited.contains(top.dir) {
            lemma_walk_next_sound(WalkView { pending: rest, ..w });
        } else if is_within(w.root, top.dir) {
            let next = WalkView {
                pending: rest,
                visited: w.visited.push(top.dir),
                dir: top.dir,
                active: top.inherited,
                stage: WalkStage::Config,
                ..w
            };
            assert(next.visited[w.visited.len() as int] == top.dir);
            assert forall|i: int| 0 <= i < next.found.len() implies next.visited.contains(
                #[trigger] next.found[i].uri,
            ) by {
                let k = choose|k: int| 0 <= k < w.visited.len() && w.visited[k] == w.found[i].uri;
                assert(next.visited[k] == w.found[i].uri);
            }
            assert(!uris_of(next.found).contains(top.dir)) by {
                if uris_of(next.found).contains(top.dir) {
                    let k = choose|k: int|
                        0 <= k < uris_of(w.found).len() && uris_of(w.found)[k] == top.dir;
                    assert(w.visited.contains(w.found[k].uri));
                }
            }
        }
    }
}

/// Every step keeps a walk sound: whatever the caller reports, no directory
/// is visited twice and none becomes a collection twice, so a directory
/// that is reached again, through a link to a directory above it or through
/// a second name, adds nothing.
pub proof fn lemma_walk_step_sound(w: WalkView, event: WalkEventView)
    requires
        walk_sound(w),
    ensures
        walk_step(w, event) matches Ok((next, request)) ==> {
            &&& walk_sound(next)
            &&& next.root == w.root
            &&& next.workspace == w.workspace
            &&& request matches WalkRequestView::Finish(found) ==> uris_of(found).no_duplicates()
        },
{
    match (w.stage, event) {
        (WalkStage::Config, WalkEventView::Config(local)) => {
            let effective = effective_config(w.active, w.dir, local);
            if is_pruned(effective, w.root, w.dir) {
                lemma_walk_next_sound(WalkView { active: effective, ..w });
            }
        },
        (WalkStage::Listing, WalkEventView::Listing(entries)) => {
            let found = if is_promoted(entries, w.active, w.dir) {
                w.found.push(collection_for(w.workspace, w.root, w.dir))
            } else {
                w.found
            };
            let between = WalkView {
                found,
                pending: w.pending + queued(entries, w.root, w.active),
                ..w
            };
            if is_promoted(entries, w.active, w.dir) {
                assert(uris_of(found) =~= uris_of(w.found).push(w.dir));
                assert forall|i: int| 0 <= i < found.len() implies w.visited.contains(
                    #[trigger] found[i].uri,
                ) by {
                    if i < w.found.len() {
                        assert(found[i] == w.found[i]);
                    }
                }
            }
            lemma_walk_next_sound(between);
        },
        _ => {},
    }
}

/// A walk is sound from its start.
pub proof fn lemma_walk_start_sound(workspace: WorkspaceView, root: Seq<char>)
    ensures
        walk_next(walk_start(workspace, root)) matches Ok((next, _)) && walk_sound(next)
            && next.stage == WalkStage::Config && next.dir == root && next.active is None
            && next.visited == seq![root],
{
    let start = walk_start(workspace, root);
    crate::paths::lemma_within_itself(root);
    assert(uris_of(start.found) =~= Seq::<Seq<char>>::empty());
    assert(start.pending.last().dir == root);
    lemma_walk_next_sound(start);
    assert(start.visited.push(root) =~= seq![root]);
}

/// Only directories that are no symlinks are descended into, and only in
/// their canonical form, which lies within the root. A symlink among the
/// entries adds nothing to the directories that wait, and does not count as
/// a request file.
pub proof fn lemma_symlinks_are_not_followed(
    entries: Seq<DirEntryView>,
    root: Seq<char>,
    active: Option<ActiveConfigView>,
)
    ensures
        forall|k: int|
            0 <= k < queued(entries, root, active).len() ==> exists|i: int|
                0 <= i < entries.len() && is_subdirectory(entries[i], root) && entries[i].kind
                    == EntryKind::Directory && (#[trigger] queued(entries, root, active)[k]).dir
                    == entries[i].resolved->0 && is_within(root, entries[i].resolved->0),
        forall|k: int|
            0 <= k < queued(entries, root, active).len() ==> (#[trigger] queued(
                entries,
                root,
                active,
            )[k]).inherited == active,
        (forall|i: int| 0 <= i < entries.len() ==> (#[trigger] entries[i]).kind == EntryKind::Symlink)
            ==> queued(entries, root, active).len() == 0 && !has_request_files(entries),
    decreases entries.len(),
{
    if entries.len() > 0 {
        let rest = entries.drop_first();
        lemma_symlinks_are_not_followed(rest, root, active);
        let q = queued(entries, root, active);
        let qr = queued(rest, root, active);
        assert forall|k: int| 0 <= k < q.len() implies exists|i: int|
            0 <= i < entries.len() && is_subdirectory(entries[i], root) && entries[i].kind
                == EntryKind::Directory && (#[trigger] q[k]).dir == entries[i].resolved->0
                && is_within(root, entries[i].resolved->0) by {
            if k < qr.len() {
                let i = choose|i: int|
                    0 <= i < rest.len() && is_subdirectory(rest[i], root) && rest[i].kind
                        == EntryKind::Directory && qr[k].dir == rest[i].resolved->0 && is_within(
                        root,
                        rest[i].resolved->0,
                    );
                assert(rest[i] == entries[i + 1]);
                assert(q[k] == qr[k]);
            } else {
                assert(is_subdirectory(entries[0], root));
            }
        }
        if forall|i: int| 0 <= i < entries.len() ==> (#[trigger] entries[i]).kind
            == EntryKind::Symlink {
            assert forall|i: int| 0 <= i < rest.len() implies (#[trigger] rest[i]).kind
                == EntryKind::Symlink by {
                assert(rest[i] == entries[i + 1]);
            }
            assert(entries[0].kind == EntryKind::Symlink);
        }
    }
}

/// Descent and promotion are decided apart. Whether the walk enters a
/// directory depends on the patterns that exclude and include, matched
/// against the path from the workspace root. Whether an entered directory
/// with request files becomes a collection depends on the entries alone,
/// matched against the path from the directory that holds the
/// configuration.
pub proof fn lemma_descent_and_promotion(
    w: WalkView,
    local: Option<DiscoveryConfigView>,
    entries: Seq<DirEntryView>,
)
    requires
        w.stage == WalkStage::Config,
    ensures
        ({
            let effective = effective_config(w.active, w.dir, local);
            let entered = walk_step(w, WalkEventView::Config(local));
            &&& is_pruned(effective, w.root, w.dir) <==> effective is Some && !is_included(
                effective->0.config,
                relative_text(w.root, w.dir),
            )
            &&& !is_pruned(effective, w.root, w.dir) ==> (entered matches Ok((listing, request))
                && request == WalkRequestView::ListDirectory(w.dir) && listing.active == effective
                && listing.found == w.found && (is_promoted(entries, effective, w.dir)
                <==> has_request_files(entries) && (effective is Some ==> is_entry(
                effective->0.config,
                relative_text(effective->0.origin_dir, w.dir),
            ))))
            &&& is_pruned(effective, w.root, w.dir) ==> entered == walk_next(
                WalkView { active: effective, ..w },
            )
        }),
{
}

/// Configurations go down the walk unchanged. A directory without a
/// configuration of its own is listed under the one it inherited; a directory
/// with one is listed under its own alone, with itself as origin, whatever
/// it inherited. Every subdirectory then waits with the configuration that
/// its parent was listed under.
pub proof fn lemma_walk_hands_configuration_down(
    w: WalkView,
    local: Option<DiscoveryConfigView>,
    entries: Seq<DirEntryView>,
)
    requires
        w.stage == WalkStage::Config,
        !is_pruned(effective_config(w.active, w.dir, local), w.root, w.dir),
    ensures
        ({
            let effective = effective_config(w.active, w.dir, local);
            &&& walk_step(w, WalkEventView::Config(local)) matches Ok((listing, request))
                && request == WalkRequestView::ListDirectory(w.dir) && listing.stage
                == WalkStage::Listing && listing.dir == w.dir && listing.active == effective
            &&& local is None ==> effective == w.active
            &&& local is Some ==> effective == Some(
                ActiveConfigView { origin_dir: w.dir, config: local->0 },
            )
            &&& forall|k: int|
                0 <= k < queued(entries, w.root, effective).len() ==> (#[trigger] queued(
                    entries,
                    w.root,
                    effective,
                )[k]).inherited == effective
        }),
{
    lemma_symlinks_are_not_followed(
        entries,
        w.root,
        effective_config(w.active, w.dir, local),
    );
}

/// The directory that a walk takes up next is one of those that waited,
/// and it is taken up with the configuration that it waited with.
pub proof fn lemma_walk_takes_up_inherited(w: WalkView)
    ensures
        walk_next(w) matches Ok((next, WalkRequestView::LoadConfig(_))) ==> exists|i: int|
            0 <= i < w.pending.len() && (#[trigger] w.pending[i]).dir == next.dir
                && w.pending[i].inherited == next.active,
    decreases w.pending.len(),
{
    if w.pending.len() > 0 {
        let top = w.pending.last();
        let rest = w.pending.drop_last();
        if w.visited.contains(top.dir) {
            let shorter = WalkView { pending: rest, ..w };
            lemma_walk_takes_up_inherited(shorter);
            if walk_next(shorter) is Ok && walk_next(shorter)->Ok_0.1 is LoadConfig {
                let next = walk_next(shorter)->Ok_0.0;
                let i = choose|i: int|
                    0 <= i < rest.len() && (#[trigger] rest[i]).dir == next.dir
                        && rest[i].inherited == next.active;
                assert(w.pending[i] == rest[i]);
            }
        } else if is_within(w.root, top.dir) {
            assert(w.pending[w.pending.len() - 1] == top);
        }
    }
}

/// A directory that the configuration in force keeps out is left at once:
/// it is not listed, so it does not become a collection and none of its
/// subdirectories is ever reached through it.
pub proof fn lemma_walk_leaves_pruned(w: WalkView, local: Option<DiscoveryConfigView>)
    requires
        walk_sound(w),
        w.stage == WalkStage::Config,
        is_pruned(effective_config(w.active, w.dir, local), w.root, w.dir),
    ensures
        walk_step(w, WalkEventView::Config(local)) matches Ok((next, request)) ==> match request {
            WalkRequestView::ListDirectory(_) => false,
            WalkRequestView::LoadConfig(_) => next.found == w.found && next.dir != w.dir && exists|
                i: int,
            |
                0 <= i < w.pending.len() && (#[trigger] w.pending[i]).dir == next.dir,
            WalkRequestView::Finish(found) => found == sorted_by_key(w.found, collection_key()),
        },
{
    let effective = effective_config(w.active, w.dir, local);
    let left = WalkView { active: effective, ..w };
    lemma_walk_next_sound(left);
    lemma_walk_takes_up_inherited(left);
}

/// Promotion goes by the entries alone, measured from the directory that
/// holds the configuration, and does not touch descent: a listed directory
/// becomes a collection exactly when it is promoted, and its subdirectories
/// wait to be visited whether it is or not.
pub proof fn lemma_walk_promotes_by_entries(w: WalkView, entries: Seq<DirEntryView>)
    requires
        w.stage == WalkStage::Listing,
    ensures
        ({
            let promoted = is_promoted(entries, w.active, w.dir);
            let found = if promoted {
                w.found.push(collection_for(w.workspace, w.root, w.dir))
            } else {
                w.found
            };
            &&& promoted <==> has_request_files(entries) && (w.active is Some ==> is_entry(
                w.active->0.config,
                relative_text(w.active->0.origin_dir, w.dir),
            ))
            &&& walk_step(w, WalkEventView::Listing(entries)) == walk_next(
                WalkView { found, pending: w.pending + queued(entries, w.root, w.active), ..w },
            )
        }),
{
}

/// How many events a walk can still take, at most, when `universe` holds
/// every directory that it can come to: two for each directory not visited
/// yet, and what the directory it stands in still needs.
pub open spec fn walk_budget(w: WalkView, universe: Set<Seq<char>>) -> int {
    2 * (universe.len() - w.visited.len()) + match w.stage {
        WalkStage::Config => 2int,
        WalkStage::Listing => 1int,
        WalkStage::Done => 0int,
    }
}

/// Tells whether every directory that the walk has visited or has waiting
/// is one of `universe`.
pub open spec fn walk_confined_to(w: WalkView, universe: Set<Seq<char>>) -> bool {
    &&& forall|i: int| 0 <= i < w.visited.len() ==> universe.contains(#[trigger] w.visited[i])
    &&& forall|i: int| 0 <= i < w.pending.len() ==> universe.contains((#[trigger] w.pending[i]).dir)
}

/// Tells whether every directory that the event reports is one of
/// `universe`.
pub open spec fn event_confined_to(event: WalkEventView, universe: Set<Seq<char>>) -> bool {
    event matches WalkEventView::Listing(entries) ==> forall|i: int|
        0 <= i < entries.len() && (#[trigger] entries[i]).resolved is Some ==> universe.contains(
            entries[i].resolved->0,
        )
}

/// No more directories are visited than there are.
pub proof fn lemma_visited_bounded(visited: Seq<Seq<char>>, universe: Set<Seq<char>>)
    requires
        universe.finite(),
        visited.no_duplicates(),
        forall|i: int| 0 <= i < visited.len() ==> universe.contains(#[trigger] visited[i]),
    ensures
        visited.len() <= universe.len(),
{
    visited.unique_seq_to_set();
    assert(visited.to_set().subset_of(universe)) by {
        assert forall|x: Seq<char>| visited.to_set().contains(x) implies universe.contains(x) by {
            let k = choose|k: int| 0 <= k < visited.len() && visited[k] == x;
            assert(universe.contains(visited[k]));
        }
    }
    vstd::set_lib::lemma_len_subset(visited.to_set(), universe);
}

/// The directories that a listing adds are directories that it reports.
pub proof fn lemma_queued_confined(
    entries: Seq<DirEntryView>,
    root: Seq<char>,
    active: Option<ActiveConfigView>,
    universe: Set<Seq<char>>,
)
    requires
        event_confined_to(WalkEventView::Listing(entries), universe),
    ensures
        forall|k: int|
            0 <= k < queued(entries, root, active).len() ==> universe.contains(
                (#[trigger] queued(entries, root, active)[k]).dir,
            ),
{
    lemma_symlinks_are_not_followed(entries, root, active);
    let q = queued(entries, root, active);
    assert forall|k: int| 0 <= k < q.len() implies universe.contains((#[trigger] q[k]).dir) by {
        let i = choose|i: int|
            0 <= i < entries.len() && is_subdirectory(entries[i], root) && entries[i].kind
                == EntryKind::Directory && q[k].dir == entries[i].resolved->0 && is_within(
                root,
                entries[i].resolved->0,
            );
        assert(entries[i].resolved is Some);
    }
}

/// Going on to the next directory ends the walk or visits a directory that
/// was not visited before, and stays among the directories that there are.
pub proof fn lemma_walk_next_budget(w: WalkView, universe: Set<Seq<char>>)
    requires
        walk_settled(w),
        universe.finite(),
        walk_confined_to(w, universe),
    ensures
        walk_next(w) matches Ok((next, _)) ==> walk_confined_to(next, universe) && 0
            <= walk_budget(next, universe) <= 2 * (universe.len() - w.visited.len()),
    decreases w.pending.len(),
{
    lemma_visited_bounded(w.visited, universe);
    lemma_walk_next_sound(w);
    if w.pending.len() > 0 {
        let top = w.pending.last();
        let rest = w.pending.drop_last();
        if w.visited.contains(top.dir) {
            let shorter = WalkView { pending: rest, ..w };
            assert forall|i: int| 0 <= i < rest.len() implies universe.contains(
                (#[trigger] rest[i]).dir,
            ) by {
                assert(rest[i] == w.pending[i]);
            }
            lemma_walk_next_budget(shorter, universe);
        } else if is_within(w.root, top.dir) {
            let next = walk_next(w)->Ok_0.0;
            assert forall|i: int| 0 <= i < next.visited.len() implies universe.contains(
                #[trigger] next.visited[i],
            ) by {
                if i < w.visited.len() {
                    assert(next.visited[i] == w.visited[i]);
                } else {
                    assert(next.visited[i] == top.dir);
                    assert(universe.contains(w.pending[w.pending.len() - 1].dir));
                }
            }
            assert forall|i: int| 0 <= i < next.pending.len() implies universe.contains(
                (#[trigger] next.pending[i]).dir,
            ) by {
                assert(next.pending[i] == w.pending[i]);
            }
            lemma_visited_bounded(next.visited, universe);
        }
    }
}

/// Every walk ends. Where the directories that the caller can report are
/// finitely many, each event that the walk takes lowers its budget, which
/// is never negative: after twice as many events as there are directories,
/// at the latest, the walk is over. Links that lead back to a directory
/// above do not change that: they add no directory.
pub proof fn lemma_walk_terminates(w: WalkView, event: WalkEventView, universe: Set<Seq<char>>)
    requires
        walk_sound(w),
        universe.finite(),
        walk_confined_to(w, universe),
        event_confined_to(event, universe),
    ensures
        0 <= walk_budget(w, universe),
        walk_step(w, event) matches Ok((next, _)) ==> walk_sound(next) && walk_confined_to(
            next,
            universe,
        ) && 0 <= walk_budget(next, universe) < walk_budget(w, universe),
{
    lemma_visited_bounded(w.visited, universe);
    lemma_walk_step_sound(w, event);
    match (w.stage, event) {
        (WalkStage::Config, WalkEventView::Config(local)) => {
            let effective = effective_config(w.active, w.dir, local);
            if is_pruned(effective, w.root, w.dir) {
                lemma_walk_next_budget(WalkView { active: effective, ..w }, universe);
            }
        },
        (WalkStage::Listing, WalkEventView::Listing(entries)) => {
            let found = if is_promoted(entries, w.active, w.dir) {
                w.found.push(collection_for(w.workspace, w.root, w.dir))
            } else {
                w.found
            };
            let added = queued(entries, w.root, w.active);
            let between = WalkView { found, pending: w.pending + added, ..w };
            lemma_queued_confined(entries, w.root, w.active, universe);
            assert forall|i: int| 0 <= i < between.pending.len() implies universe.contains(
                (#[trigger] between.pending[i]).dir,
            ) by {
                if i < w.pending.len() {
                    assert(between.pending[i] == w.pending[i]);
                } else {
                    assert(between.pending[i] == added[i - w.pending.len()]);
                }
            }
            if is_promoted(entries, w.active, w.dir) {
                assert(uris_of(found) =~= uris_of(w.found).push(w.dir));
                assert forall|i: int| 0 <= i < found.len() implies w.visited.contains(
                    #[trigger] found[i].uri,
                ) by {
                    if i < w.found.len() {
                        assert(found[i] == w.found[i]);
                    }
                }
            }
            lemma_walk_next_budget(between, universe);
        },
        _ => {},
    }
}

} // verus!
