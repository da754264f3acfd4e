//! Version control: what its answers mean, and the commands that commit a
//! set of paths. The caller runs the commands; the library reads nothing
//! and runs nothing.

use crate::commit::{
    lemma_sanitized_is_clean, is_safe_commit_path, literal_pathspec, sanitize_commit_paths,
    sanitized, to_literal_pathspec,
};
use crate::error::{ScopeError, ScopeErrorView};
use crate::text::{chars_of, string_of, strings, trim, trimmed};
use vstd::prelude::*;
use vstd::string::StringExecFns;

verus! {

/// Tells whether `needle` occurs in `hay`.
pub open spec fn has_infix(hay: Seq<char>, needle: Seq<char>) -> bool {
    exists|i: int|
        0 <= i <= hay.len() - needle.len() && #[trigger] hay.subrange(i, i + needle.len())
            == needle
}

/// Tells whether `needle` occurs in `hay`.
pub fn occurs_in(hay: &Vec<char>, needle: &Vec<char>) -> (r: bool)
    ensures
        r == has_infix(hay@, needle@),
{
    if needle.len() > hay.len() {
        return false;
    }
    let last: usize = hay.len() - needle.len();
    let mut i: usize = 0;
    while i <= last
        invariant
            i <= last + 1,
            last == hay.len() - needle.len(),
            forall|k: int| 0 <= k < i ==> #[trigger] hay@.subrange(k, k + needle.len()) != needle@,
        decreases last + 1 - i,
    {
        let mut j: usize = 0;
        while j < needle.len() && hay[i + j] == needle[j]
            invariant
                i <= last,
                last == hay.len() - needle.len(),
                j <= needle.len(),
                forall|k: int| 0 <= k < j ==> hay@[i + k] == needle@[k],
            decreases needle.len() - j,
        {
            j += 1;
        }
        if j == needle.len() {
            proof {
                assert(hay@.subrange(i as int, i + needle.len()) =~= needle@);
            }
            return true;
        }
        proof {
            let window = hay@.subrange(i as int, i + needle.len());
            assert(window[j as int] == hay@[i + j]);
        }
        i += 1;
    }
    false
}

/// The arguments that ask version control for the repository that `path`
/// lies in.
pub open spec fn probe_arguments(path: Seq<char>) -> Seq<Seq<char>> {
    seq!["-C"@, path, "rev-parse"@, "--show-toplevel"@]
}

/// What the answer of version control to that question means: the root of
/// the repository, or none where the path lies in no repository.
pub open spec fn probe_result(
    path: Seq<char>,
    succeeded: bool,
    stdout: Seq<char>,
    stderr: Seq<char>,
) -> Result<Option<Seq<char>>, ScopeErrorView> {
    if succeeded {
        if trim(stdout).len() == 0 {
            Ok(None)
        } else {
            Ok(Some(trim(stdout)))
        }
    } else if has_infix(stderr, "not a git repository"@) {
        Ok(None)
    } else {
        Err(ScopeErrorView::RepositoryProbeFailed { path, detail: trim(stderr) })
    }
}

/// The arguments that ask version control for the repository that `path`
/// lies in.
pub fn detect_git_repo(path: &str) -> (r: Vec<String>)
    ensures
        strings(r@) == probe_arguments(path@),
{
    let mut arguments: Vec<String> = Vec::new();
    arguments.push(String::from_str("-C"));
    arguments.push(String::from_str(path));
    arguments.push(String::from_str("rev-parse"));
    arguments.push(String::from_str("--show-toplevel"));
    proof {
        assert(strings(arguments@) =~= probe_arguments(path@));
    }
    arguments
}

/// Reads the answer of version control to the question which repository
/// `path` lies in. A command that succeeded names the root, or nothing. One
/// that failed because there is no repository is no failure; any other is.
pub fn read_git_repo(path: &str, succeeded: bool, stdout: &str, stderr: &str) -> (r: Result<
    Option<String>,
    ScopeError,
>)
    ensures
        match r {
            Ok(Some(root)) => probe_result(path@, succeeded, stdout@, stderr@) == Ok::<
                Option<Seq<char>>,
                ScopeErrorView,
            >(Some(root@)),
            Ok(None) => probe_result(path@, succeeded, stdout@, stderr@) == Ok::<
                Option<Seq<char>>,
                ScopeErrorView,
            >(None),
            Err(e) => probe_result(path@, succeeded, stdout@, stderr@) == Err::<
                Option<Seq<char>>,
                ScopeErrorView,
            >(e@),
        },
{
    if succeeded {
        let root = trimmed(&chars_of(stdout));
        if root.len() == 0 {
            return Ok(None);
        }
        return Ok(Some(string_of(&root)));
    }
    let said = chars_of(stderr);
    if occurs_in(&said, &chars_of("not a git repository")) {
        return Ok(None);
    }
    Err(
        ScopeError::RepositoryProbeFailed {
            path: String::from_str(path),
            detail: string_of(&trimmed(&said)),
        },
    )
}

/// The pathspecs of `paths`: each one written so that it is taken literally.
pub open spec fn pathspecs(paths: Seq<Seq<char>>) -> Seq<Seq<char>> {
    Seq::new(paths.len(), |i: int| literal_pathspec(paths[i]))
}

/// The arguments that stage `specs` in the repository at `root`.
pub open spec fn add_arguments(root: Seq<char>, specs: Seq<Seq<char>>) -> Seq<Seq<char>> {
    seq!["-C"@, root, "add"@, "--"@] + specs
}

/// The arguments that ask whether any of `specs` is staged with changes.
/// The command succeeds where none is.
pub open spec fn staged_arguments(root: Seq<char>, specs: Seq<Seq<char>>) -> Seq<Seq<char>> {
    seq!["-C"@, root, "diff"@, "--cached"@, "--quiet"@, "--"@] + specs
}

/// The arguments that commit `specs` with `message`.
pub open spec fn commit_arguments(
    root: Seq<char>,
    message: Seq<char>,
    specs: Seq<Seq<char>>,
) -> Seq<Seq<char>> {
    seq!["-C"@, root, "commit"@, "-m"@, message, "--no-verify"@, "--"@] + specs
}

/// What a commit is waiting for.
#[derive(Clone, Copy, Debug, PartialEq, Eq, Structural)]
pub enum CommitStage {
    /// The outcome of staging.
    Staging,
    /// The answer whether anything is staged.
    Comparing,
    /// The outcome of the commit.
    Committing,
    /// Nothing: the commit is over.
    Done,
}

/// A commit in progress.
#[derive(Debug, PartialEq, Eq)]
pub struct CommitPlan {
    root: String,
    message: String,
    specs: Vec<String>,
    stage: CommitStage,
}

/// What a `CommitPlan` holds, as plain text.
pub struct CommitPlanView {
    /// The canonical root of the repository.
    pub root: Seq<char>,
    pub message: Seq<char>,
    /// The pathspecs to commit.
    pub specs: Seq<Seq<char>>,
    pub stage: CommitStage,
}

impl View for CommitPlan {
    type V = CommitPlanView;

    closed spec fn view(&self) -> CommitPlanView {
        CommitPlanView {
            root: self.root@,
            message: self.message@,
            specs: strings(self.specs@),
            stage: self.stage,
        }
    }
}

/// A request of the commit to the caller.
#[derive(Debug, PartialEq, Eq)]
pub enum CommitRequest {
    /// Run version control with these arguments, and report how it ended.
    Run(Vec<String>),
    /// The commit is over.
    Finish,
}

/// What a `CommitRequest` holds, as plain text.
pub enum CommitRequestView {
    Run(Seq<Seq<char>>),
    Finish,
}

impl View for CommitRequest {
    type V = CommitRequestView;

    open spec fn view(&self) -> CommitRequestView {
        match self {
            CommitRequest::Run(arguments) => CommitRequestView::Run(strings(arguments@)),
            CommitRequest::Finish => CommitRequestView::Finish,
        }
    }
}

/// What a step of a commit gives, as plain text.
pub open spec fn commit_outcome(r: Result<(CommitPlan, CommitRequest), ScopeError>) -> Result<
    (CommitPlanView, CommitRequestView),
    ScopeErrorView,
> {
    match r {
        Ok((state, request)) => Ok((state@, request@)),
        Err(e) => Err(e@),
    }
}

/// How a commit starts: the paths are sanitized; where none is left there
/// is nothing to do, else they are staged.
pub open spec fn commit_begin(root: Seq<char>, paths: Seq<Seq<char>>, message: Seq<char>) -> (
    CommitPlanView,
    CommitRequestView,
) {
    let specs = pathspecs(sanitized(paths));
    if specs.len() == 0 {
        (
            CommitPlanView { root, message, specs, stage: CommitStage::Done },
            CommitRequestView::Finish,
        )
    } else {
        (
            CommitPlanView { root, message, specs, stage: CommitStage::Staging },
            CommitRequestView::Run(add_arguments(root, specs)),
        )
    }
}

/// How a commit goes on. Staging that failed ends it. Then version control
/// is asked whether anything is staged: where nothing is, the commit is
/// over with nothing done; else the paths are committed, and a commit that
/// failed is reported.
pub open spec fn commit_step(plan: CommitPlanView, succeeded: bool, stderr: Seq<char>) -> Result<
    (CommitPlanView, CommitRequestView),
    ScopeErrorView,
> {
    match plan.stage {
        CommitStage::Staging => if succeeded {
            Ok(
                (
                    CommitPlanView { stage: CommitStage::Comparing, ..plan },
                    CommitRequestView::Run(staged_arguments(plan.root, plan.specs)),
                ),
            )
        } else {
            Err(ScopeErrorView::StagingFailed { detail: trim(stderr) })
        },
        CommitStage::Comparing => if succeeded {
            Ok((CommitPlanView { stage: CommitStage::Done, ..plan }, CommitRequestView::Finish))
        } else {
            Ok(
                (
                    CommitPlanView { stage: CommitStage::Committing, ..plan },
                    CommitRequestView::Run(commit_arguments(plan.root, plan.message, plan.specs)),
                ),
            )
        },
        CommitStage::Committing => if succeeded {
            Ok((CommitPlanView { stage: CommitStage::Done, ..plan }, CommitRequestView::Finish))
        } else {
            Err(ScopeErrorView::CommitFailed { detail: trim(stderr) })
        },
        CommitStage::Done => Err(ScopeErrorView::OutOfTurn),
    }
}

/// Every path that a commit hands to version control is written literally,
/// and is a safe path that was asked for: none is absolute, none leaves the
/// repository, none occurs twice.
pub proof fn lemma_commit_paths_are_safe(root: Seq<char>, paths: Seq<Seq<char>>, message: Seq<char>)
    ensures
        ({
            let specs = commit_begin(root, paths, message).0.specs;
            &&& specs.len() == sanitized(paths).len()
            &&& forall|i: int|
                0 <= i < specs.len() ==> #[trigger] specs[i] == literal_pathspec(sanitized(paths)[i])
                    && is_safe_commit_path(sanitized(paths)[i])
            &&& sanitized(paths).no_duplicates()
        }),
{
    lemma_sanitized_is_clean(paths);
}

/// The strings of `head`, then those of `tail`.
fn with_pathspecs(head: Vec<String>, tail: &Vec<String>) -> (r: Vec<String>)
    ensures
        strings(r@) == strings(head@) + strings(tail@),
{
    let mut out = head;
    let ghost start = strings(out@);
    let mut i: usize = 0;
    proof {
        assert(strings(out@) =~= start + strings(tail@).take(0));
    }
    while i < tail.len()
        invariant
            i <= tail.len(),
            strings(out@) == start + strings(tail@).take(i as int),
        decreases tail.len() - i,
    {
        let ghost before = strings(out@);
        let item = tail[i].clone();
        assert(item@ == tail@[i as int]@);
        out.push(item);
        proof {
            assert(strings(out@) =~= before.push(tail@[i as int]@));
            assert(strings(out@) =~= start + strings(tail@).take(i + 1));
        }
        i += 1;
    }
    proof {
        assert(strings(tail@).take(tail.len() as int) =~= strings(tail@));
    }
    out
}

/// Starts a commit of `paths` in the repository whose canonical root is
/// `repo_root`. Unsafe paths are dropped first. Where no path is left the
/// commit is over at once.
pub fn git_commit_paths(repo_root: &str, paths: Vec<String>, message: String) -> (r: (
    CommitPlan,
    CommitRequest,
))
    ensures
        (r.0@, r.1@) == commit_begin(repo_root@, strings(paths@), message@),
{
    let safe = sanitize_commit_paths(paths);
    let mut specs: Vec<String> = Vec::new();
    let mut i: usize = 0;
    proof {
        assert(strings(specs@) =~= pathspecs(strings(safe@)).take(0));
    }
    while i < safe.len()
        invariant
            i <= safe.len(),
            strings(specs@) == pathspecs(strings(safe@)).take(i as int),
        decreases safe.len() - i,
    {
        let ghost before = strings(specs@);
        let spec = to_literal_pathspec(safe[i].as_str());
        specs.push(spec);
        proof {
            assert(strings(specs@) =~= before.push(literal_pathspec(safe@[i as int]@)));
            assert(strings(specs@) =~= pathspecs(strings(safe@)).take(i + 1));
        }
        i += 1;
    }
    proof {
        assert(pathspecs(strings(safe@)).take(safe.len() as int) =~= pathspecs(strings(safe@)));
    }
    if specs.len() == 0 {
        return (
            CommitPlan {
                root: String::from_str(repo_root),
                message,
                specs,
                stage: CommitStage::Done,
            },
            CommitRequest::Finish,
        );
    }
    let mut head: Vec<String> = Vec::new();
    head.push(String::from_str("-C"));
    head.push(String::from_str(repo_root));
    head.push(String::from_str("add"));
    head.push(String::from_str("--"));
    proof {
        assert(strings(head@) =~= seq!["-C"@, repo_root@, "add"@, "--"@]);
    }
    let arguments = with_pathspecs(head, &specs);
    (
        CommitPlan {
            root: String::from_str(repo_root),
            message,
            specs,
            stage: CommitStage::Staging,
        },
        CommitRequest::Run(arguments),
    )
}

impl CommitPlan {
    /// What the commit is waiting for: the outcome of its last command.
    pub fn stage(&self) -> (r: CommitStage)
        ensures
            r == self@.stage,
    {
        self.stage
    }

    /// Takes the outcome of the last command, whether it succeeded and what
    /// it wrote on its error stream, and gives the next request. The commit
    /// is over when the request is to finish, and when it fails.
    pub fn advance(self, succeeded: bool, stderr: &str) -> (r: Result<
        (CommitPlan, CommitRequest),
        ScopeError,
    >)
        ensures
            commit_outcome(r) == commit_step(self@, succeeded, stderr@),
    {
        let CommitPlan { root, message, specs, stage } = self;
        match stage {
            CommitStage::Staging => {
                if !succeeded {
                    return Err(
                        ScopeError::StagingFailed {
                            detail: string_of(&trimmed(&chars_of(stderr))),
                        },
                    );
                }
                let mut head: Vec<String> = Vec::new();
                head.push(String::from_str("-C"));
                head.push(root.clone());
                head.push(String::from_str("diff"));
                head.push(String::from_str("--cached"));
                head.push(String::from_str("--quiet"));
                head.push(String::from_str("--"));
                proof {
                    assert(strings(head@) =~= seq![
                        "-C"@,
                        root@,
                        "diff"@,
                        "--cached"@,
                        "--quiet"@,
                        "--"@,
                    ]);
                }
                let arguments = with_pathspecs(head, &specs);
                Ok(
                    (
                        CommitPlan { root, message, specs, stage: CommitStage::Comparing },
                        CommitRequest::Run(arguments),
                    ),
                )
            },
            CommitStage::Comparing => {
                if succeeded {
                    return Ok(
                        (
                            CommitPlan { root, message, specs, stage: CommitStage::Done },
                            CommitRequest::Finish,
                        ),
                    );
                }
                let mut head: Vec<String> = Vec::new();
                head.push(String::from_str("-C"));
                head.push(root.clone());
                head.push(String::from_str("commit"));
                head.push(String::from_str("-m"));
                head.push(message.clone());
                head.push(String::from_str("--no-verify"));
                head.push(String::from_str("--"));
                proof {
                    assert(strings(head@) =~= seq![
                        "-C"@,
                        root@,
                        "commit"@,
                        "-m"@,
                        message@,
                        "--no-verify"@,
                        "--"@,
                    ]);
                }
                let arguments = with_pathspecs(head, &specs);
                Ok(
                    (
                        CommitPlan { root, message, specs, stage: CommitStage::Committing },
                        CommitRequest::Run(arguments),
                    ),
                )
            },
            CommitStage::Committing => {
                if !succeeded {
                    return Err(
                        ScopeError::CommitFailed {
                            detail: string_of(&trimmed(&chars_of(stderr))),
                        },
                    );
                }
                Ok(
                    (
                        CommitPlan { root, message, specs, stage: CommitStage::Done },
                        CommitRequest::Finish,
                    ),
                )
            },
            CommitStage::Done => Err(ScopeError::OutOfTurn),
        }
    }
}

} // verus!
