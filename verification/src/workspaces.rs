//! Workspaces: where they are looked for, and what is listed of them.

use crate::model::{
    entries_view, workspaces_view, DirEntry, DirEntryView, EntryKind, Workspace, WorkspaceView,
};
use crate::paths::{
    components, components_of, dot, dot_dot, id_text, join_path, joined, make_id, slash,
};
use crate::text::{chars_of, string_of, strings, texts};
use vstd::prelude::*;

verus! {

/// The directory that holds the workspaces of a process, given the
/// directory that the process runs in.
pub open spec fn local_workspaces(current_dir: Seq<char>) -> Seq<char> {
    joined(joined(current_dir, ".eshttp"@), "workspaces"@)
}

/// The directory that holds the workspaces of a user, given the directory
/// of the user's configuration.
pub open spec fn user_workspaces(config_dir: Seq<char>) -> Seq<char> {
    joined(joined(config_dir, "eshttp"@), "workspaces"@)
}

/// The directories that are scanned for workspaces: the local one first,
/// then the user's, each where its base directory is known.
pub open spec fn workspace_roots(
    current_dir: Option<Seq<char>>,
    config_dir: Option<Seq<char>>,
) -> Seq<Seq<char>> {
    let local = match current_dir {
        Some(dir) => seq![local_workspaces(dir)],
        None => Seq::empty(),
    };
    let user = match config_dir {
        Some(dir) => seq![user_workspaces(dir)],
        None => Seq::empty(),
    };
    local + user
}

/// Tells whether `entry` is a workspace candidate: a directory, no symlink,
/// that the caller could resolve.
pub open spec fn is_candidate(entry: DirEntryView) -> bool {
    entry.kind == EntryKind::Directory && entry.resolved is Some
}

/// The canonical paths of the candidates among `entries`, in their order.
pub open spec fn candidates(entries: Seq<DirEntryView>) -> Seq<Seq<char>>
    decreases entries.len(),
{
    if entries.len() == 0 {
        Seq::empty()
    } else {
        let front = candidates(entries.drop_last());
        if is_candidate(entries.last()) {
            front.push(entries.last().resolved->0)
        } else {
            front
        }
    }
}

/// The name of the file or directory that `path` ends in, where it ends in
/// one: not where it is empty, is the root, or ends in `.` or `..`.
pub open spec fn file_name_text(path: Seq<char>) -> Option<Seq<char>> {
    let segments = components(path);
    if segments.len() > 0 && segments.last() != slash() && segments.last() != dot()
        && segments.last() != dot_dot() {
        Some(segments.last())
    } else {
        None
    }
}

/// The directories of the workspaces of `v`.
pub open spec fn workspace_uris(v: Seq<WorkspaceView>) -> Seq<Seq<char>> {
    Seq::new(v.len(), |i: int| v[i].uri)
}

/// The workspace at `path`, named after the directory that `path` ends in.
pub open spec fn workspace_at(path: Seq<char>, name: Seq<char>) -> WorkspaceView {
    WorkspaceView { id: id_text("workspace"@, path), name, uri: path }
}

/// The workspaces at `paths`: one for each path that ends in a name, in the
/// order given, each path once.
pub open spec fn workspaces_at(paths: Seq<Seq<char>>) -> Seq<WorkspaceView>
    decreases paths.len(),
{
    if paths.len() == 0 {
        Seq::empty()
    } else {
        let front = workspaces_at(paths.drop_last());
        let path = paths.last();
        if file_name_text(path) is Some && !workspace_uris(front).contains(path) {
            front.push(workspace_at(path, file_name_text(path)->0))
        } else {
            front
        }
    }
}

/// No directory is listed as a workspace twice, and every workspace listed
/// is at one of the paths given.
pub proof fn lemma_workspaces_distinct(paths: Seq<Seq<char>>)
    ensures
        workspace_uris(workspaces_at(paths)).no_duplicates(),
        forall|i: int|
            0 <= i < workspaces_at(paths).len() ==> paths.contains(
                (#[trigger] workspaces_at(paths)[i]).uri,
            ),
        workspaces_at(paths).len() <= paths.len(),
    decreases paths.len(),
{
    if paths.len() > 0 {
        let front_paths = paths.drop_last();
        lemma_workspaces_distinct(front_paths);
        let front = workspaces_at(front_paths);
        let all = workspaces_at(paths);
        let path = paths.last();
        assert forall|i: int| 0 <= i < all.len() implies paths.contains((#[trigger] all[i]).uri) by {
            if i < front.len() {
                assert(all[i] == front[i]);
                let k = choose|k: int| 0 <= k < front_paths.len() && front_paths[k] == front[i].uri;
                assert(paths[k] == front[i].uri);
            } else {
                assert(paths[paths.len() - 1] == all[i].uri);
            }
        }
        if file_name_text(path) is Some && !workspace_uris(front).contains(path) {
            assert(workspace_uris(all) =~= workspace_uris(front).push(path));
        }
    }
}

/// The directories that are scanned for workspaces, given the directory
/// that the process runs in and the directory of the user's configuration,
/// each where it is known.
pub fn get_workspace_roots(current_dir: Option<&str>, config_dir: Option<&str>) -> (r: Vec<String>)
    ensures
        strings(r@) == workspace_roots(
            match current_dir {
                Some(dir) => Some(dir@),
                None => None,
            },
            match config_dir {
                Some(dir) => Some(dir@),
                None => None,
            },
        ),
{
    let mut roots: Vec<String> = Vec::new();
    match current_dir {
        Some(dir) => {
            let base = join_path(dir, ".eshttp");
            roots.push(join_path(base.as_str(), "workspaces"));
        },
        None => {},
    }
    let ghost local = strings(roots@);
    match config_dir {
        Some(dir) => {
            let base = join_path(dir, "eshttp");
            roots.push(join_path(base.as_str(), "workspaces"));
            proof {
                assert(strings(roots@) =~= local.push(user_workspaces(dir@)));
            }
        },
        None => {},
    }
    proof {
        assert(strings(roots@) =~= workspace_roots(
            match current_dir {
                Some(dir) => Some(dir@),
                None => None,
            },
            match config_dir {
                Some(dir) => Some(dir@),
                None => None,
            },
        ));
    }
    roots
}

/// The canonical paths of the directories among `entries`, in their order.
/// Symlinks are passed over, and so are directories that the caller could
/// not resolve.
pub fn read_dirs(entries: &Vec<DirEntry>) -> (r: Vec<String>)
    ensures
        strings(r@) == candidates(entries_view(entries@)),
{
    let mut out: Vec<String> = Vec::new();
    let mut i: usize = 0;
    proof {
        assert(entries_view(entries@).take(0) =~= Seq::<DirEntryView>::empty());
        assert(strings(out@) =~= Seq::<Seq<char>>::empty());
    }
    while i < entries.len()
        invariant
            i <= entries.len(),
            strings(out@) == candidates(entries_view(entries@).take(i as int)),
        decreases entries.len() - i,
    {
        let entry = &entries[i];
        let ghost before = strings(out@);
        proof {
            let upto = entries_view(entries@).take(i + 1);
            assert(upto.drop_last() =~= entries_view(entries@).take(i as int));
            assert(upto.last() == entry@);
        }
        if entry.kind == EntryKind::Directory {
            match &entry.resolved {
                Some(path) => {
                    out.push(path.clone());
                    proof {
                        assert(strings(out@) =~= before.push(path@));
                    }
                },
                None => {},
            }
        }
        i += 1;
    }
    proof {
        assert(entries_view(entries@).take(entries.len() as int) =~= entries_view(entries@));
    }
    out
}

/// The name of the file or directory that `path` ends in, where it ends in
/// one.
pub fn file_name(path: &str) -> (r: Option<String>)
    ensures
        match r {
            Some(name) => file_name_text(path@) == Some(name@),
            None => file_name_text(path@) is None,
        },
{
    let segments = components_of(&chars_of(path));
    if segments.len() == 0 {
        return None;
    }
    let last = &segments[segments.len() - 1];
    proof {
        assert(texts(segments@).last() == last@);
    }
    let n = last.len();
    let special = (n == 1 && (last[0] == '/' || last[0] == '.')) || (n == 2 && last[0] == '.'
        && last[1] == '.');
    proof {
        if n == 1 && last[0] == '/' {
            assert(last@ =~= slash());
        }
        if n == 1 && last[0] == '.' {
            assert(last@ =~= dot());
        }
        if n == 2 && last[0] == '.' && last[1] == '.' {
            assert(last@ =~= dot_dot());
        }
        if !special {
            if last@ == slash() {
                assert(slash().len() == 1 && slash()[0] == '/');
            }
            if last@ == dot() {
                assert(dot().len() == 1 && dot()[0] == '.');
            }
            if last@ == dot_dot() {
                assert(dot_dot().len() == 2 && dot_dot()[0] == '.' && dot_dot()[1] == '.');
            }
        }
    }
    if special {
        None
    } else {
        Some(string_of(last))
    }
}

/// Tells whether one of `list` is at `uri`.
fn holds_uri(list: &Vec<Workspace>, uri: &String) -> (r: bool)
    ensures
        r == workspace_uris(workspaces_view(list@)).contains(uri@),
{
    let mut i: usize = 0;
    while i < list.len()
        invariant
            i <= list.len(),
            forall|j: int| 0 <= j < i ==> workspace_uris(workspaces_view(list@))[j] != uri@,
        decreases list.len() - i,
    {
        if list[i].uri == *uri {
            proof {
                assert(workspace_uris(workspaces_view(list@))[i as int] == uri@);
            }
            return true;
        }
        i += 1;
    }
    false
}

/// Lists the workspaces at `paths`, the canonical paths of the candidate
/// directories. A workspace is named after the directory that its path ends
/// in; a path that ends in none is passed over, and so is a path that was
/// listed before.
pub fn list_workspaces(paths: Vec<String>) -> (r: Vec<Workspace>)
    ensures
        workspaces_view(r@) == workspaces_at(strings(paths@)),
        workspace_uris(workspaces_view(r@)).no_duplicates(),
{
    let mut out: Vec<Workspace> = Vec::new();
    let mut i: usize = 0;
    proof {
        assert(strings(paths@).take(0) =~= Seq::<Seq<char>>::empty());
        assert(workspaces_view(out@) =~= Seq::<WorkspaceView>::empty());
    }
    while i < paths.len()
        invariant
            i <= paths.len(),
            workspaces_view(out@) == workspaces_at(strings(paths@).take(i as int)),
        decreases paths.len() - i,
    {
        let ghost before = workspaces_view(out@);
        proof {
            assert(strings(paths@).take(i + 1).drop_last() =~= strings(paths@).take(i as int));
            assert(strings(paths@).take(i + 1).last() == paths@[i as int]@);
        }
        match file_name(paths[i].as_str()) {
            Some(name) => {
                if !holds_uri(&out, &paths[i]) {
                    let workspace = Workspace {
                        id: make_id("workspace", paths[i].as_str()),
                        name,
                        uri: paths[i].clone(),
                    };
                    let ghost added = workspace@;
                    out.push(workspace);
                    proof {
                        assert(workspaces_view(out@) =~= before.push(added));
                    }
                }
            },
            None => {},
        }
        i += 1;
    }
    proof {
        assert(strings(paths@).take(paths.len() as int) =~= strings(paths@));
        lemma_workspaces_distinct(strings(paths@));
    }
    out
}

} // verus!
