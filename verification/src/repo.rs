//! Repositories: folders that must have a `.git` directory.

use vstd::prelude::*;

use crate::components::{components, is_absolute};
use crate::error::{IoError, IoErrorKind, IoErrorView};
use crate::folder::{found_view, git_dir_of, git_folder, FolderView, MonitoredFolder};
use crate::fs_path::FsPath;
use crate::ignore_rules::{all_patterns, build_error, matched_part, IgnoreFile};
use crate::skipped::{skipped_of, Skipped};
use crate::views::{result_view, seq_view};

verus! {

/// A repository that is watched: a folder in Git mode.
#[derive(Debug)]
pub struct RepoState {
    folder: MonitoredFolder,
}

impl View for RepoState {
    type V = FolderView;

    closed spec fn view(&self) -> FolderView {
        self.folder@
    }
}

/// What the disk says about a repository: how it is spelled, its canonical path, whether it has a `.git`,
/// whether that is a directory, and the ignore files that apply.
#[derive(Debug)]
pub struct RepoProbe {
    pub path: FsPath,
    pub canonical: Result<FsPath, IoError>,
    pub git_present: bool,
    pub git_is_dir: bool,
    pub ignore_files: Vec<IgnoreFile>,
}

impl RepoProbe {
    /// Canonical paths are absolute.
    pub open spec fn wf(&self) -> bool {
        self.canonical matches Ok(root) ==> is_absolute(root@)
    }

    /// The repository that the disk shows, or why there is none.
    pub open spec fn repo(&self) -> Result<FolderView, IoErrorView> {
        match result_view(self.canonical) {
            Err(error) => Err(error),
            Ok(root) => if !self.git_present {
                Err(
                    IoErrorView {
                        kind: IoErrorKind::InvalidInput,
                        message: "no .git directory found"@,
                    },
                )
            } else if !self.git_is_dir {
                Err(
                    IoErrorView {
                        kind: IoErrorKind::InvalidInput,
                        message: ".git is not a directory (git worktrees and gitdir files are not yet supported)"@,
                    },
                )
            } else {
                git_folder(root, seq_view(self.ignore_files@))
            },
        }
    }
}

impl RepoState {
    #[verifier::type_invariant]
    spec fn inv(self) -> bool {
        self.folder@.git is Some
    }

    /// The repository that the disk shows.
    pub fn discover(probe: &RepoProbe) -> (repo: Result<RepoState, IoError>)
        requires
            probe.wf(),
        ensures
            result_view(repo) == probe.repo(),
    {
        let root = match &probe.canonical {
            Ok(root) => root.clone(),
            Err(error) => return Err(error.clone()),
        };
        if !probe.git_present {
            return Err(IoError::new(IoErrorKind::InvalidInput, "no .git directory found"));
        }
        if !probe.git_is_dir {
            return Err(
                IoError::new(
                    IoErrorKind::InvalidInput,
                    ".git is not a directory (git worktrees and gitdir files are not yet supported)",
                ),
            );
        }
        match MonitoredFolder::in_git_mode(root, &probe.ignore_files) {
            Ok(folder) => Ok(RepoState { folder }),
            Err(error) => Err(error),
        }
    }

    /// The repository's root.
    pub fn root(&self) -> (root: &FsPath)
        ensures
            root@ == self@.root,
            self@.wf(),
    {
        self.folder.root()
    }

    /// The repository's Git directory.
    pub fn git_dir(&self) -> (dir: &FsPath)
        ensures
            self@.git matches Some(git) && dir@ == git.git_dir,
    {
        proof {
            use_type_invariant(self);
        }
        self.folder.git_dir().unwrap()
    }

    /// Whether the path belongs to Git's own data.
    pub fn is_inside_git_dir(&self, path: &FsPath) -> (yes: bool)
        ensures
            yes == self@.holds_git_path(path@),
    {
        self.folder.is_inside_git_dir(path)
    }

    /// Whether the ignore rules hide the path, given relative to the root.
    pub fn is_worktree_ignored(&self, rel: &FsPath, is_dir: bool) -> (yes: bool)
        requires
            self@.git matches Some(git) ==> git.patterns.len() > 0 ==> !is_absolute(
                matched_part(self@.root, rel@),
            ),
        ensures
            yes == self@.ignores(rel@, is_dir),
    {
        self.folder.is_worktree_ignored(rel, is_dir)
    }
}

impl Clone for RepoState {
    fn clone(&self) -> (copy: RepoState)
        ensures
            copy@ == self@,
    {
        proof {
            use_type_invariant(self);
        }
        RepoState { folder: self.folder.clone() }
    }
}

/// Whether one of the repositories has the root.
pub open spec fn has_repo(repos: Seq<FolderView>, root: Seq<u8>) -> bool {
    exists|i: int|
        0 <= i < repos.len() && components((#[trigger] repos[i]).root) == components(root)
}

/// The repositories among those tried, each root once.
pub open spec fn distinct_repos(tried: Seq<Result<FolderView, IoErrorView>>) -> Seq<FolderView>
    decreases tried.len(),
{
    if tried.len() == 0 {
        Seq::empty()
    } else {
        let before = distinct_repos(tried.drop_last());
        match tried.last() {
            Ok(repo) => if has_repo(before, repo.root) {
                before
            } else {
                before.push(repo)
            },
            Err(_) => before,
        }
    }
}

/// What the disk shows at each of the probed paths.
pub open spec fn tried_repos(probes: Seq<RepoProbe>) -> Seq<Result<FolderView, IoErrorView>> {
    probes.map_values(|probe: RepoProbe| probe.repo())
}

/// Whether one of the repositories has the root.
fn find_repo(repos: &Vec<RepoState>, root: &FsPath) -> (found: bool)
    ensures
        found == has_repo(seq_view(repos@), root@),
{
    let mut i: usize = 0;
    while i < repos.len()
        invariant
            i <= repos@.len(),
            forall|k: int|
                0 <= k < i ==> components((#[trigger] seq_view(repos@)[k]).root) != components(
                    root@,
                ),
        decreases repos@.len() - i,
    {
        assert(seq_view(repos@)[i as int] == repos@[i as int]@);
        if *repos[i].root() == *root {
            return true;
        }
        i += 1;
    }
    false
}

/// How the probed repositories are spelled.
pub open spec fn probed_paths(probes: Seq<RepoProbe>) -> Seq<Seq<u8>> {
    probes.map_values(|probe: RepoProbe| probe.path@)
}

/// The repositories to watch from the start, and the paths that lead to none.
#[derive(Debug)]
pub struct StartupRepos {
    pub repos: Vec<RepoState>,
    pub skipped: Vec<Skipped>,
}

/// The repositories to watch from the start: those that the probes show, each root once.
/// The others are skipped.
pub fn build_startup_repos(probes: &Vec<RepoProbe>) -> (out: StartupRepos)
    requires
        forall|i: int| 0 <= i < probes@.len() ==> (#[trigger] probes@[i]).wf(),
    ensures
        seq_view(out.repos@) == distinct_repos(tried_repos(probes@)),
        seq_view(out.skipped@) == skipped_of(probed_paths(probes@), tried_repos(probes@)),
{
    let mut repos: Vec<RepoState> = Vec::new();
    let mut skipped: Vec<Skipped> = Vec::new();
    let ghost paths = probed_paths(probes@);
    let ghost tried = tried_repos(probes@);
    let mut i: usize = 0;
    assert(seq_view(repos@) =~= distinct_repos(tried.take(0)));
    assert(seq_view(skipped@) =~= skipped_of(paths, tried.take(0)));
    while i < probes.len()
        invariant
            i <= probes@.len() == tried.len(),
            tried == tried_repos(probes@),
            forall|k: int| 0 <= k < probes@.len() ==> (#[trigger] probes@[k]).wf(),
            seq_view(repos@) == distinct_repos(tried.take(i as int)),
            paths == probed_paths(probes@),
            seq_view(skipped@) == skipped_of(paths, tried.take(i as int)),
        decreases probes@.len() - i,
    {
        let ghost before = repos@;
        let ghost passed_over = skipped@;
        assert(tried.take(i + 1).drop_last() =~= tried.take(i as int));
        assert(tried.take(i + 1).last() == probes@[i as int].repo());
        match RepoState::discover(&probes[i]) {
            Ok(repo) => {
                if !find_repo(&repos, repo.root()) {
                    repos.push(repo);
                    assert(seq_view(repos@) =~= seq_view(before).push(repo@));
                }
            },
            Err(error) => {
                let entry = Skipped { path: probes[i].path.clone(), error };
                skipped.push(entry);
                assert(seq_view(skipped@) =~= seq_view(passed_over).push(entry@));
            },
        }
        i += 1;
    }
    assert(tried.take(i as int) =~= tried);
    StartupRepos { repos, skipped }
}

/// The repositories watched from the start have distinct roots.
pub proof fn law_startup_repos_are_distinct(tried: Seq<Result<FolderView, IoErrorView>>)
    ensures
        forall|i: int, j: int|
            0 <= i < j < distinct_repos(tried).len() ==> components(
                (#[trigger] distinct_repos(tried)[i]).root,
            ) != components((#[trigger] distinct_repos(tried)[j]).root),
    decreases tried.len(),
{
    if tried.len() > 0 {
        law_startup_repos_are_distinct(tried.drop_last());
    }
}

/// Every repository found is watched from the start, under the first path that led to
/// it.
pub proof fn law_every_repo_is_watched(tried: Seq<Result<FolderView, IoErrorView>>, i: int)
    requires
        0 <= i < tried.len(),
        tried[i] is Ok,
    ensures
        has_repo(distinct_repos(tried), tried[i]->Ok_0.root),
        (forall|k: int|
            0 <= k < i ==> (#[trigger] tried[k] matches Ok(repo) ==> components(repo.root)
                != components(tried[i]->Ok_0.root))) ==> distinct_repos(tried).contains(
            tried[i]->Ok_0,
        ),
    decreases tried.len(),
{
    let less = tried.drop_last();
    let before = distinct_repos(less);
    let after = distinct_repos(tried);
    let root = tried[i]->Ok_0.root;
    if i < less.len() {
        law_every_repo_is_watched(less, i);
        assert(less[i] == tried[i]);
        let j = choose|j: int|
            0 <= j < before.len() && components((#[trigger] before[j]).root) == components(root);
        assert(after[j] == before[j]);
        if forall|k: int|
            0 <= k < i ==> (#[trigger] tried[k] matches Ok(repo) ==> components(repo.root)
                != components(root)) {
            assert forall|k: int| 0 <= k < i implies (#[trigger] less[k] matches Ok(repo)
                ==> components(repo.root) != components(root)) by {
                assert(less[k] == tried[k]);
            }
            let m = choose|m: int| 0 <= m < before.len() && before[m] == tried[i]->Ok_0;
            assert(after[m] == before[m]);
        }
    } else {
        if has_repo(before, root) {
            lemma_repos_were_tried(less);
            let j = choose|j: int|
                0 <= j < before.len() && components((#[trigger] before[j]).root) == components(
                    root,
                );
            let k = choose|k: int| 0 <= k < less.len() && less[k] == Ok::<
                FolderView,
                IoErrorView,
            >(before[j]);
            assert(tried[k] == less[k]);
        } else {
            assert(after[before.len() as int] == tried[i]->Ok_0);
        }
    }
}

/// Only repositories found are watched from the start.
proof fn lemma_repos_were_tried(tried: Seq<Result<FolderView, IoErrorView>>)
    ensures
        forall|j: int|
            0 <= j < distinct_repos(tried).len() ==> tried.contains(
                Ok(#[trigger] distinct_repos(tried)[j]),
            ),
    decreases tried.len(),
{
    if tried.len() > 0 {
        let less = tried.drop_last();
        lemma_repos_were_tried(less);
        assert forall|j: int| 0 <= j < distinct_repos(tried).len() implies tried.contains(
            Ok(#[trigger] distinct_repos(tried)[j]),
        ) by {
            let repo = distinct_repos(tried)[j];
            if j < distinct_repos(less).len() {
                assert(repo == distinct_repos(less)[j]);
                let k = choose|k: int| 0 <= k < less.len() && less[k] == Ok::<
                    FolderView,
                    IoErrorView,
                >(repo);
                assert(tried[k] == less[k]);
            } else {
                assert(tried[tried.len() - 1] == Ok::<FolderView, IoErrorView>(repo));
            }
        }
    }
}

/// The root that a path names: the canonical path of what is there, or the path itself
/// where nothing is there and it is absolute.
pub open spec fn repo_root(
    path: Seq<u8>,
    found: Option<Result<Seq<u8>, IoErrorView>>,
) -> Result<Seq<u8>, IoErrorView> {
    match found {
        Some(canonical) => canonical,
        None => if is_absolute(path) {
            Ok(path)
        } else {
            Err(
                IoErrorView {
                    kind: IoErrorKind::InvalidInput,
                    message: "repo path must exist or be an absolute path that matches a configured watch"@,
                },
            )
        },
    }
}

/// The root that a path names; `found` is what is at the path.
pub fn normalize_repo_root(path: &FsPath, found: &Option<Result<FsPath, IoError>>) -> (root: Result<
    FsPath,
    IoError,
>)
    ensures
        result_view(root) == repo_root(path@, found_view(*found)),
{
    match found {
        Some(Ok(canonical)) => Ok(canonical.clone()),
        Some(Err(error)) => Err(error.clone()),
        None => if path.is_absolute() {
            Ok(path.clone())
        } else {
            Err(
                IoError::new(
                    IoErrorKind::InvalidInput,
                    "repo path must exist or be an absolute path that matches a configured watch",
                ),
            )
        },
    }
}

/// A path leads to a repository where there is something with a `.git` directory: one with
/// that root, that goes by all rules of all its ignore files. Where it does not, the first
/// thing that failed says why.
pub proof fn law_only_git_directories_are_repositories(probe: RepoProbe)
    ensures
        (match result_view(probe.canonical) {
            Err(error) => probe.repo() == Err::<FolderView, IoErrorView>(error),
            Ok(root) => {
                &&& !probe.git_present || !probe.git_is_dir ==> (probe.repo() matches Err(error)
                    && error.kind == IoErrorKind::InvalidInput)
                &&& probe.git_present && probe.git_is_dir ==> (match probe.repo() {
                    Ok(repo) => repo.root == root && (repo.git matches Some(git) && git.git_dir
                        == git_dir_of(root) && git.patterns == all_patterns(
                        seq_view(probe.ignore_files@),
                    )),
                    Err(error) => build_error(all_patterns(seq_view(probe.ignore_files@))) == Some(
                        error.message,
                    ),
                })
            },
        }),
{
}

/// Only repositories that were found are watched from the start, in the order in which
/// they were found.
pub proof fn law_startup_repos_are_those_found(
    tried: Seq<Result<FolderView, IoErrorView>>,
    more: Seq<Result<FolderView, IoErrorView>>,
)
    ensures
        forall|j: int|
            0 <= j < distinct_repos(tried).len() ==> tried.contains(
                Ok(#[trigger] distinct_repos(tried)[j]),
            ),
        distinct_repos(tried).is_prefix_of(distinct_repos(tried + more)),
    decreases more.len(),
{
    lemma_repos_were_tried(tried);
    let all = distinct_repos(tried + more);
    let n = distinct_repos(tried).len() as int;
    if more.len() == 0 {
        assert(tried + more =~= tried);
        assert(all.subrange(0, n) =~= distinct_repos(tried));
    } else {
        law_startup_repos_are_those_found(tried, more.drop_last());
        assert((tried + more).drop_last() =~= tried + more.drop_last());
        let less = distinct_repos(tried + more.drop_last());
        assert(less.subrange(0, n) == distinct_repos(tried));
        assert(all.subrange(0, n) =~= less.subrange(0, n));
    }
}

/// What each of the probes shows, and how it is spelled, one for one.
pub proof fn law_probes_are_tried_one_by_one(probes: Seq<RepoProbe>, i: int)
    requires
        0 <= i < probes.len(),
    ensures
        tried_repos(probes).len() == probes.len(),
        tried_repos(probes)[i] == probes[i].repo(),
        probed_paths(probes).len() == probes.len(),
        probed_paths(probes)[i] == probes[i].path@,
{
}

/// What is there counts by its canonical path; what is not there counts as it is spelled,
/// where it is absolute.
pub proof fn law_repo_roots_are_normalized(
    path: Seq<u8>,
    found: Option<Result<Seq<u8>, IoErrorView>>,
)
    ensures
        found matches Some(canonical) ==> repo_root(path, found) == canonical,
        found is None && is_absolute(path) ==> repo_root(path, found) == Ok::<
            Seq<u8>,
            IoErrorView,
        >(path),
        found is None && !is_absolute(path) ==> (repo_root(path, found) matches Err(error)
            && error.kind == IoErrorKind::InvalidInput),
{
}

} // verus!
