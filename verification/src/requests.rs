//! The request files of a collection, found step by step from what the
//! caller finds on disk.

use crate::discovery::{is_request_file, is_request_file_name, is_request_name, request_suffix};
use crate::error::{ScopeError, ScopeErrorView};
use crate::model::{
    entries_view, requests_view, Collection, DirEntry, DirEntryView, EntryKind, RequestFile,
    RequestFileView,
};
use crate::order::{insertion_point, lemma_place_found, lemma_placed_is_insert, sorted_by_key};
use crate::paths::{ensure_within_root, id_text, is_within, join_path, joined, make_id};
use crate::scoped::{FsEvent, FsEventView};
use crate::text::{chars_of, string_of, strings, texts};
use vstd::prelude::*;
use vstd::string::StringExecFns;

verus! {

/// The title of the request file called `name`: the name without the ending
/// of request files. The ending is dropped once: a name that holds it twice
/// keeps the first.
pub open spec fn title_of(name: Seq<char>) -> Seq<char> {
    if is_request_name(name) {
        name.take(name.len() - 5)
    } else {
        name
    }
}

/// The names of the request files among `entries`, in their order.
pub open spec fn request_names(entries: Seq<DirEntryView>) -> Seq<Seq<char>>
    decreases entries.len(),
{
    if entries.len() == 0 {
        Seq::empty()
    } else {
        let front = request_names(entries.drop_last());
        if is_request_file(entries.last()) {
            front.push(entries.last().name->0)
        } else {
            front
        }
    }
}

/// The request file called `name` whose canonical path is `resolved`.
pub open spec fn request_for(
    collection_id: Seq<char>,
    name: Seq<char>,
    resolved: Seq<char>,
) -> RequestFileView {
    RequestFileView {
        id: id_text("request"@, resolved),
        collection_id,
        title: title_of(name),
        uri: resolved,
    }
}

/// The key that request files are sorted by: the title.
pub open spec fn request_key() -> spec_fn(RequestFileView) -> Seq<char> {
    |r: RequestFileView| r.title
}

/// What a listing of request files is waiting for.
#[derive(Clone, Copy, Debug, PartialEq, Eq, Structural)]
pub enum ListingStage {
    /// The canonical path of the current file.
    Resolution,
    /// Nothing: the listing is over.
    Done,
}

/// A listing of request files in progress.
#[derive(Debug, PartialEq, Eq)]
pub struct RequestListing {
    collection_id: String,
    directory: String,
    names: Vec<String>,
    current: String,
    found: Vec<RequestFile>,
    stage: ListingStage,
}

/// What a `RequestListing` holds, as plain text.
pub struct RequestListingView {
    pub collection_id: Seq<char>,
    /// The canonical directory of the collection.
    pub directory: Seq<char>,
    /// The names of the request files still to resolve.
    pub names: Seq<Seq<char>>,
    /// The name of the file that is being resolved.
    pub current: Seq<char>,
    /// The request files found so far.
    pub found: Seq<RequestFileView>,
    pub stage: ListingStage,
}

impl View for RequestListing {
    type V = RequestListingView;

    closed spec fn view(&self) -> RequestListingView {
        RequestListingView {
            collection_id: self.collection_id@,
            directory: self.directory@,
            names: strings(self.names@),
            current: self.current@,
            found: requests_view(self.found@),
            stage: self.stage,
        }
    }
}

/// A request of the listing to the caller.
#[derive(Debug, PartialEq, Eq)]
pub enum ListingRequest {
    /// Resolve this path to its canonical form, and report that form.
    Resolve(String),
    /// The listing is over: these are the request files, sorted by title.
    Finish(Vec<RequestFile>),
}

/// What a `ListingRequest` holds, as plain text.
pub enum ListingRequestView {
    Resolve(Seq<char>),
    Finish(Seq<RequestFileView>),
}

impl View for ListingRequest {
    type V = ListingRequestView;

    open spec fn view(&self) -> ListingRequestView {
        match self {
            ListingRequest::Resolve(path) => ListingRequestView::Resolve(path@),
            ListingRequest::Finish(found) => ListingRequestView::Finish(requests_view(found@)),
        }
    }
}

/// What a step of a listing gives, as plain text.
pub open spec fn listing_outcome(r: Result<(RequestListing, ListingRequest), ScopeError>) -> Result<
    (RequestListingView, ListingRequestView),
    ScopeErrorView,
> {
    match r {
        Ok((state, request)) => Ok((state@, request@)),
        Err(e) => Err(e@),
    }
}

/// How a listing goes on to the next file: it asks for the canonical path of
/// the file in the directory or, where no file is left, hands out the
/// request files sorted by title.
pub open spec fn listing_next(l: RequestListingView) -> (RequestListingView, ListingRequestView) {
    if l.names.len() == 0 {
        (
            RequestListingView { found: Seq::empty(), stage: ListingStage::Done, ..l },
            ListingRequestView::Finish(sorted_by_key(l.found, request_key())),
        )
    } else {
        (
            RequestListingView {
                names: l.names.drop_first(),
                current: l.names[0],
                stage: ListingStage::Resolution,
                ..l
            },
            ListingRequestView::Resolve(joined(l.directory, l.names[0])),
        )
    }
}

/// How a listing starts: with the names of the request files among the
/// entries of the collection's directory.
pub open spec fn listing_begin(
    collection_id: Seq<char>,
    directory: Seq<char>,
    entries: Seq<DirEntryView>,
) -> (RequestListingView, ListingRequestView) {
    listing_next(
        RequestListingView {
            collection_id,
            directory,
            names: request_names(entries),
            current: Seq::empty(),
            found: Seq::empty(),
            stage: ListingStage::Done,
        },
    )
}

/// How a listing goes on: a file whose canonical path lies within the
/// collection's directory is added; one that lies outside ends the listing.
pub open spec fn listing_step(l: RequestListingView, event: FsEventView) -> Result<
    (RequestListingView, ListingRequestView),
    ScopeErrorView,
> {
    match (l.stage, event) {
        (ListingStage::Resolution, FsEventView::Resolved(resolved)) => {
            if is_within(l.directory, resolved) {
                Ok(
                    listing_next(
                        RequestListingView {
                            found: l.found.push(request_for(l.collection_id, l.current, resolved)),
                            ..l
                        },
                    ),
                )
            } else {
                Err(ScopeErrorView::OutsideRoot { root: l.directory, resolved })
            }
        },
        _ => Err(ScopeErrorView::OutOfTurn),
    }
}

/// A title is the start of the name it was made from, and the name of a
/// request file is its title followed by the ending of request files.
pub proof fn lemma_title_is_bare(name: Seq<char>)
    ensures
        title_of(name).is_prefix_of(name),
        is_request_name(name) ==> name == title_of(name) + request_suffix(),
{
    if is_request_name(name) {
        assert(title_of(name) =~= name.subrange(0, title_of(name).len() as int));
        assert(name =~= title_of(name) + request_suffix());
    } else {
        assert(name =~= name.subrange(0, name.len() as int));
    }
}

/// The title of the request file called `name`: the name without the ending
/// of request files, dropped once.
pub fn request_title(name: &str) -> (r: String)
    ensures
        r@ == title_of(name@),
{
    let mut chars = chars_of(name);
    let n = chars.len();
    let ends = n >= 5 && chars[n - 5] == '.' && chars[n - 4] == 'h' && chars[n - 3] == 't'
        && chars[n - 2] == 't' && chars[n - 1] == 'p';
    proof {
        if n >= 5 {
            let tail = chars@.subrange(n - 5, n as int);
            if ends {
                assert(tail =~= request_suffix());
            } else if tail == request_suffix() {
                assert(tail[0] == '.' && tail[1] == 'h' && tail[2] == 't' && tail[3] == 't'
                    && tail[4] == 'p');
            }
        }
    }
    if ends {
        let ghost before = chars@;
        chars.truncate(n - 5);
        proof {
            assert(chars@ =~= before.take(n - 5));
        }
    }
    string_of(&chars)
}

/// The names of the request files among `entries`, in their order: regular
/// files, no symlinks, whose names end as request files do.
pub fn select_request_files(entries: &Vec<DirEntry>) -> (r: Vec<String>)
    ensures
        strings(r@) == request_names(entries_view(entries@)),
{
    let mut out: Vec<String> = Vec::new();
    let mut i: usize = 0;
    proof {
        assert(entries_view(entries@).take(0) =~= Seq::<DirEntryView>::empty());
        assert(strings(out@) =~= Seq::<Seq<char>>::empty());
    }
    while i < entries.len()
        invariant
            i <= entries.len(),
            strings(out@) == request_names(entries_view(entries@).take(i as int)),
        decreases entries.len() - i,
    {
        let entry = &entries[i];
        let ghost before = strings(out@);
        proof {
            let upto = entries_view(entries@).take(i + 1);
            assert(upto.drop_last() =~= entries_view(entries@).take(i as int));
            assert(upto.last() == entry@);
        }
        if entry.kind == EntryKind::File {
            match &entry.name {
                Some(name) => {
                    if is_request_file_name(name.as_str()) {
                        out.push(name.clone());
                        proof {
                            assert(strings(out@) =~= before.push(name@));
                        }
                    }
                },
                None => {},
            }
        }
        i += 1;
    }
    proof {
        assert(entries_view(entries@).take(entries.len() as int) =~= entries_view(entries@));
    }
    out
}

/// The titles of the request files of `v`.
pub open spec fn titles_of(v: Seq<RequestFileView>) -> Seq<Seq<char>> {
    Seq::new(v.len(), |i: int| v[i].title)
}

/// Sorts request files by title. Files with the same title keep their order.
pub fn sort_requests(items: Vec<RequestFile>) -> (r: Vec<RequestFile>)
    ensures
        requests_view(r@) == sorted_by_key(requests_view(items@), request_key()),
{
    let mut items = items;
    let ghost all = requests_view(items@);
    let mut out: Vec<RequestFile> = Vec::new();
    let mut keys: Vec<Vec<char>> = Vec::new();
    proof {
        assert(all.skip(all.len() as int) =~= Seq::<RequestFileView>::empty());
        assert(requests_view(out@) =~= Seq::<RequestFileView>::empty());
        assert(texts(keys@) =~= titles_of(requests_view(out@)));
        assert(all.take(all.len() as int) =~= all);
    }
    while items.len() > 0
        invariant
            items.len() <= all.len(),
            requests_view(items@) == all.take(items.len() as int),
            requests_view(out@) == sorted_by_key(all.skip(items.len() as int), request_key()),
            texts(keys@) == titles_of(requests_view(out@)),
        decreases items.len(),
    {
        let ghost n = items.len() as int;
        let ghost before = requests_view(out@);
        let ghost before_items = items@;
        let item = items.pop().unwrap();
        let key = chars_of(item.title.as_str());
        let p = insertion_point(&keys, &key);
        proof {
            assert(item@ == requests_view(before_items)[n - 1]);
            assert(item@ == all[n - 1]);
            assert(all.skip(n - 1)[0] == all[n - 1]);
            assert(all.skip(n - 1).drop_first() =~= all.skip(n));
            assert(requests_view(items@) =~= all.take(n - 1));
            assert(request_key()(item@) == key@);
            assert(texts(keys@).len() == titles_of(before).len());
            assert(keys@.len() == before.len());
            assert forall|j: int| 0 <= j < p implies !crate::order::text_le(
                request_key()(item@),
                request_key()(#[trigger] before[j]),
            ) by {
                assert(titles_of(before)[j] == before[j].title);
                assert(texts(keys@)[j] == before[j].title);
            }
            if p < keys.len() {
                assert(titles_of(before)[p as int] == before[p as int].title);
                assert(texts(keys@)[p as int] == before[p as int].title);
            }
            lemma_place_found(item@, before, request_key(), p as int);
            lemma_placed_is_insert(item@, before, request_key());
        }
        let ghost item_view = item@;
        let ghost keys_before = texts(keys@);
        let ghost key_text = key@;
        out.insert(p, item);
        keys.insert(p, key);
        proof {
            assert(requests_view(out@) =~= before.insert(p as int, item_view));
            assert(texts(keys@) =~= keys_before.insert(p as int, key_text));
            assert(titles_of(before.insert(p as int, item_view)) =~= titles_of(before).insert(
                p as int,
                item_view.title,
            ));
            assert(texts(keys@) =~= titles_of(requests_view(out@)));
        }
    }
    proof {
        assert(all.skip(0) =~= all);
    }
    out
}

impl RequestListing {
    /// Goes on to the next file.
    fn proceed(self) -> (r: (RequestListing, ListingRequest))
        ensures
            (r.0@, r.1@) == listing_next(self@),
    {
        let RequestListing { collection_id, directory, names, current, found, stage } = self;
        let mut names = names;
        if names.len() == 0 {
            let sorted = sort_requests(found);
            let state = RequestListing {
                collection_id,
                directory,
                names,
                current,
                found: Vec::new(),
                stage: ListingStage::Done,
            };
            proof {
                assert(state@.found =~= Seq::<RequestFileView>::empty());
            }
            (state, ListingRequest::Finish(sorted))
        } else {
            let ghost before = strings(names@);
            let name = names.remove(0);
            proof {
                assert(strings(names@) =~= before.drop_first());
                assert(name@ == before[0]);
            }
            let path = join_path(directory.as_str(), name.as_str());
            (
                RequestListing {
                    collection_id,
                    directory,
                    names,
                    current: name,
                    found,
                    stage: ListingStage::Resolution,
                },
                ListingRequest::Resolve(path),
            )
        }
    }

    /// Takes the canonical path of the current file and gives the next
    /// request. The listing is over when the request is to finish, and when
    /// it fails.
    pub fn advance(self, event: FsEvent) -> (r: Result<(RequestListing, ListingRequest), ScopeError>)
        ensures
            listing_outcome(r) == listing_step(self@, event@),
    {
        let RequestListing { collection_id, directory, names, current, found, stage } = self;
        match (stage, event) {
            (ListingStage::Resolution, FsEvent::Resolved(resolved)) => {
                match ensure_within_root(directory.as_str(), resolved.as_str()) {
                    Err(e) => Err(e),
                    Ok(()) => {
                        let mut found = found;
                        let ghost before = requests_view(found@);
                        let request = RequestFile {
                            id: make_id("request", resolved.as_str()),
                            collection_id: collection_id.clone(),
                            title: request_title(current.as_str()),
                            uri: resolved,
                        };
                        let ghost added = request@;
                        found.push(request);
                        proof {
                            assert(requests_view(found@) =~= before.push(added));
                        }
                        let state = RequestListing {
                            collection_id,
                            directory,
                            names,
                            current,
                            found,
                            stage,
                        };
                        Ok(state.proceed())
                    },
                }
            },
            _ => Err(ScopeError::OutOfTurn),
        }
    }
}

/// Starts the listing of the request files of `collection`, whose canonical
/// directory is `directory` and holds `entries`. Symlinks and entries that
/// are no regular files are passed over.
pub fn list_requests(collection: &Collection, directory: &str, entries: &Vec<DirEntry>) -> (r: (
    RequestListing,
    ListingRequest,
))
    ensures
        (r.0@, r.1@) == listing_begin(collection@.id, directory@, entries_view(entries@)),
{
    let state = RequestListing {
        collection_id: collection.id.clone(),
        directory: String::from_str(directory),
        names: select_request_files(entries),
        current: String::new(),
        found: Vec::new(),
        stage: ListingStage::Done,
    };
    proof {
        assert(state@.found =~= Seq::<RequestFileView>::empty());
    }
    state.proceed()
}

/// Every request file that a listing adds lies within the collection's
/// directory, and what it hands out at the end are the files found, sorted
/// by title.
pub proof fn lemma_listing_stays_within(l: RequestListingView, event: FsEventView)
    requires
        forall|i: int| 0 <= i < l.found.len() ==> is_within(l.directory, (#[trigger] l.found[i]).uri),
    ensures
        listing_step(l, event) matches Ok((next, request)) ==> {
            &&& next.directory == l.directory
            &&& forall|i: int|
                0 <= i < next.found.len() ==> is_within(l.directory, (#[trigger] next.found[i]).uri)
            &&& request matches ListingRequestView::Finish(found) ==> {
                &&& crate::order::in_key_order(found, request_key())
                &&& found.len() == l.found.len() + 1
                &&& forall|i: int|
                    0 <= i < found.len() ==> is_within(l.directory, (#[trigger] found[i]).uri)
            }
        },
{
    broadcast use vstd::seq_lib::group_to_multiset_ensures;

    match (l.stage, event) {
        (ListingStage::Resolution, FsEventView::Resolved(resolved)) => {
            if is_within(l.directory, resolved) {
                let grown = l.found.push(request_for(l.collection_id, l.current, resolved));
                let between = RequestListingView { found: grown, ..l };
                assert forall|i: int| 0 <= i < grown.len() implies is_within(
                    l.directory,
                    (#[trigger] grown[i]).uri,
                ) by {
                    if i < l.found.len() {
                        assert(grown[i] == l.found[i]);
                    }
                }
                if between.names.len() == 0 {
                    let sorted = sorted_by_key(grown, request_key());
                    crate::order::lemma_sorted_by_key(grown, request_key());
                    assert forall|i: int| 0 <= i < sorted.len() implies is_within(
                        l.directory,
                        (#[trigger] sorted[i]).uri,
                    ) by {
                        assert(sorted.to_multiset().contains(sorted[i]));
                        assert(grown.contains(sorted[i]));
                        let k = choose|k: int| 0 <= k < grown.len() && grown[k] == sorted[i];
                        assert(is_within(l.directory, grown[k].uri));
                    }
                }
            }
        },
        _ => {},
    }
}

} // verus!
