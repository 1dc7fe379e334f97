//! Watched folders, and the Git mode of those with a `.git` directory.

use std::sync::Arc;

use ignore::gitignore::Gitignore;
use vstd::prelude::*;
use vstd::utf8::encode_utf8;

use crate::components::{
    components, is_absolute, joined, lemma_joined, lemma_single_component, DOT, SLASH,
};
use crate::environment::Environment;
use crate::error::{IoError, IoErrorKind, IoErrorView};
use crate::fs_path::{is_under, law_join_then_strip, law_under_is_an_order, name_of, FsPath};
use crate::ignore_rules::{
    all_patterns, build_error, build_ignore_matcher, is_ignored, law_every_rule_counts,
    lemma_matchable, line_patterns, matched_part, matcher_patterns, matcher_root, nearest_verdict,
    patterns_ignore, rules_of, share, without_marks, IgnoreFile,
};
use crate::paths::{expand_path, path_expanded, Vars};
use crate::views::{
    lemma_filter_keeps, lemma_filter_leaves, option_view, result_view, seq_view,
};

verus! {

/// The path that a text spells.
pub open spec fn spelled(text: Seq<char>) -> Seq<u8> {
    encode_utf8(text)
}

/// The directory of Git's own data in a folder.
pub open spec fn git_dir_of(root: Seq<u8>) -> Seq<u8> {
    joined(root, spelled(".git"@))
}

/// What Git mode knows of a folder.
#[derive(Debug)]
pub struct GitState {
    git_dir: FsPath,
    ignore: Arc<Gitignore>,
}

/// The Git directory of a folder and the patterns that it ignores.
pub struct GitView {
    pub git_dir: Seq<u8>,
    pub patterns: Seq<Seq<char>>,
}

impl View for GitState {
    type V = GitView;

    closed spec fn view(&self) -> GitView {
        GitView { git_dir: self.git_dir@, patterns: matcher_patterns(*self.ignore) }
    }
}

/// A folder that is watched, in Git mode or plain.
#[derive(Debug)]
pub struct MonitoredFolder {
    root: FsPath,
    git: Option<GitState>,
}

/// A folder's root, and what Git mode knows of it.
pub struct FolderView {
    pub root: Seq<u8>,
    pub git: Option<GitView>,
}

impl FolderView {
    /// The root is absolute, and the Git directory is the folder's `.git`.
    pub open spec fn wf(self) -> bool {
        &&& is_absolute(self.root)
        &&& self.git matches Some(git) ==> git.git_dir == git_dir_of(self.root)
    }

    /// Whether the path belongs to Git's own data.
    pub open spec fn holds_git_path(self, path: Seq<u8>) -> bool {
        self.git matches Some(git) && is_under(path, git.git_dir)
    }

    /// Whether the ignore rules hide the path, given relative to the root. A plain
    /// folder hides nothing, nor does one without patterns.
    pub open spec fn ignores(self, rel: Seq<u8>, is_dir: bool) -> bool {
        self.git matches Some(git) && git.patterns.len() > 0 && patterns_ignore(
            self.root,
            git.patterns,
            rel,
            is_dir,
        )
    }
}

impl View for MonitoredFolder {
    type V = FolderView;

    closed spec fn view(&self) -> FolderView {
        FolderView {
            root: self.root@,
            git: match self.git {
                Some(git) => Some(git@),
                None => None,
            },
        }
    }
}

/// What the disk says about a path: what it is canonically, and whether that is a
/// directory.
#[derive(Debug)]
pub struct DirProbe {
    pub canonical: Result<FsPath, IoError>,
    pub is_dir: bool,
}

impl DirProbe {
    /// Canonical paths are absolute.
    pub open spec fn wf(&self) -> bool {
        self.canonical matches Ok(root) ==> is_absolute(root@)
    }
}

/// What the disk says about a folder: the folder itself, whether its `.git` is a
/// directory, and the ignore files that apply.
#[derive(Debug)]
pub struct FolderProbe {
    pub dir: DirProbe,
    pub git_is_dir: bool,
    pub ignore_files: Vec<IgnoreFile>,
}

/// The canonical path of an existing directory.
pub open spec fn existing_dir(
    path: Seq<u8>,
    env: Vars,
    canonical: Result<Seq<u8>, IoErrorView>,
    is_dir: bool,
) -> Result<Seq<u8>, IoErrorView> {
    match (path_expanded(path, env), canonical) {
        (Err(error), _) => Err(error),
        (Ok(_), Err(error)) => Err(error),
        (Ok(_), Ok(root)) => if is_dir {
            Ok(root)
        } else {
            Err(
                IoErrorView {
                    kind: IoErrorKind::InvalidInput,
                    message: "folder path must be a directory"@,
                },
            )
        },
    }
}

/// The canonical path of the directory that `path` leads to.
pub fn resolve_existing_dir(path: &FsPath, env: &Environment, probe: &DirProbe) -> (root: Result<
    FsPath,
    IoError,
>)
    ensures
        result_view(root) == existing_dir(path@, env@, result_view(probe.canonical), probe.is_dir),
{
    match expand_path(path, env) {
        Ok(_) => {},
        Err(error) => return Err(error),
    }
    match &probe.canonical {
        Ok(root) => if probe.is_dir {
            Ok(root.clone())
        } else {
            Err(IoError::new(IoErrorKind::InvalidInput, "folder path must be a directory"))
        },
        Err(error) => Err(error.clone()),
    }
}

/// The folder with the given root in Git mode, with the rules of the ignore files.
pub open spec fn git_folder(root: Seq<u8>, ignore_files: Seq<Seq<Seq<char>>>) -> Result<
    FolderView,
    IoErrorView,
> {
    match rules_of(ignore_files) {
        Err(error) => Err(error),
        Ok(patterns) => Ok(
            FolderView { root, git: Some(GitView { git_dir: git_dir_of(root), patterns }) },
        ),
    }
}

/// The folder that `path` leads to: in Git mode where its `.git` is a directory,
/// with the rules of the ignore files, and plain otherwise.
pub open spec fn discovered(
    path: Seq<u8>,
    env: Vars,
    canonical: Result<Seq<u8>, IoErrorView>,
    is_dir: bool,
    git_is_dir: bool,
    ignore_files: Seq<Seq<Seq<char>>>,
) -> Result<FolderView, IoErrorView> {
    match existing_dir(path, env, canonical, is_dir) {
        Err(error) => Err(error),
        Ok(root) => if !git_is_dir {
            Ok(FolderView { root, git: None })
        } else {
            git_folder(root, ignore_files)
        },
    }
}

impl MonitoredFolder {
    #[verifier::type_invariant]
    spec fn inv(self) -> bool {
        &&& self@.wf()
        &&& self.git matches Some(git) ==> git@.patterns.len() > 0 ==> matcher_root(*git.ignore)
            == self.root@
    }

    /// The folder that `path` leads to.
    pub fn discover(path: &FsPath, env: &Environment, probe: &FolderProbe) -> (folder: Result<
        MonitoredFolder,
        IoError,
    >)
        requires
            probe.dir.wf(),
        ensures
            result_view(folder) == discovered(
                path@,
                env@,
                result_view(probe.dir.canonical),
                probe.dir.is_dir,
                probe.git_is_dir,
                seq_view(probe.ignore_files@),
            ),
            folder matches Ok(f) ==> f@.wf(),
    {
        let root = match resolve_existing_dir(path, env, &probe.dir) {
            Ok(root) => root,
            Err(error) => return Err(error),
        };
        assert(is_absolute(root@));
        if probe.git_is_dir {
            MonitoredFolder::in_git_mode(root, &probe.ignore_files)
        } else {
            Ok(MonitoredFolder { root, git: None })
        }
    }

    /// The folder with the given root in Git mode, with the rules of the ignore files.
    pub fn in_git_mode(root: FsPath, ignore_files: &Vec<IgnoreFile>) -> (folder: Result<
        MonitoredFolder,
        IoError,
    >)
        requires
            is_absolute(root@),
        ensures
            result_view(folder) == git_folder(root@, seq_view(ignore_files@)),
            folder matches Ok(f) ==> f@.wf(),
    {
        let git_dir = root.join(&FsPath::from_text(".git"));
        match build_ignore_matcher(&root, ignore_files) {
            Ok(matcher) => {
                let git = GitState { git_dir, ignore: Arc::new(matcher) };
                Ok(MonitoredFolder { root, git: Some(git) })
            },
            Err(error) => Err(error),
        }
    }

    /// The folder's root.
    pub fn root(&self) -> (root: &FsPath)
        ensures
            root@ == self@.root,
            self@.wf(),
    {
        proof {
            use_type_invariant(self);
        }
        &self.root
    }

    /// The folder's Git directory, in Git mode.
    pub fn git_dir(&self) -> (dir: Option<&FsPath>)
        ensures
            dir is Some <==> self@.git is Some,
            dir matches Some(d) ==> d@ == self@.git->0.git_dir,
    {
        match &self.git {
            Some(git) => Some(&git.git_dir),
            None => None,
        }
    }

    /// Whether the path belongs to Git's own data.
    pub fn is_inside_git_dir(&self, path: &FsPath) -> (yes: bool)
        ensures
            yes == self@.holds_git_path(path@),
    {
        match &self.git {
            Some(git) => path.starts_with(&git.git_dir),
            None => false,
        }
    }

    /// Whether the ignore rules hide the path, given relative to the root.
    pub fn is_worktree_ignored(&self, rel: &FsPath, is_dir: bool) -> (yes: bool)
        requires
            self@.git matches Some(git) ==> git.patterns.len() > 0 ==> !is_absolute(
                matched_part(self@.root, rel@),
            ),
        ensures
            yes == self@.ignores(rel@, is_dir),
    {
        proof {
            use_type_invariant(self);
        }
        match &self.git {
            Some(git) => is_ignored(&git.ignore, rel, is_dir),
            None => false,
        }
    }
}

impl Clone for GitState {
    fn clone(&self) -> (copy: GitState)
        ensures
            copy@ == self@,
            copy.ignores_by() == self.ignores_by(),
    {
        GitState { git_dir: self.git_dir.clone(), ignore: share(&self.ignore) }
    }
}

impl GitState {
    /// The matcher of the folder's ignore rules.
    pub closed spec fn ignores_by(&self) -> Gitignore {
        *self.ignore
    }
}

impl Clone for MonitoredFolder {
    fn clone(&self) -> (copy: MonitoredFolder)
        ensures
            copy@ == self@,
    {
        proof {
            use_type_invariant(self);
        }
        let git = match &self.git {
            Some(git) => Some(git.clone()),
            None => None,
        };
        MonitoredFolder { root: self.root.clone(), git }
    }
}

/// The root that a path names: the canonical path of what is there, or the
/// expanded path itself where nothing is there and it is absolute.
pub open spec fn normalized_root(
    path: Seq<u8>,
    env: Vars,
    found: Option<Result<Seq<u8>, IoErrorView>>,
) -> Result<Seq<u8>, IoErrorView> {
    match (path_expanded(path, env), found) {
        (Err(error), _) => Err(error),
        (Ok(_), Some(canonical)) => canonical,
        (Ok(expanded), None) => if is_absolute(expanded) {
            Ok(expanded)
        } else {
            Err(
                IoErrorView {
                    kind: IoErrorKind::InvalidInput,
                    message: "folder path must exist or be an absolute path that matches a configured watch"@,
                },
            )
        },
    }
}

/// What is at a path: nothing, or something with a canonical path.
pub open spec fn found_view(found: Option<Result<FsPath, IoError>>) -> Option<
    Result<Seq<u8>, IoErrorView>,
> {
    match found {
        Some(canonical) => Some(result_view(canonical)),
        None => None,
    }
}

/// The root that a path names; `found` is what is at the expanded path.
pub fn normalize_folder_root(
    path: &FsPath,
    env: &Environment,
    found: &Option<Result<FsPath, IoError>>,
) -> (root: Result<FsPath, IoError>)
    ensures
        result_view(root) == normalized_root(path@, env@, found_view(*found)),
{
    let expanded = match expand_path(path, env) {
        Ok(expanded) => expanded,
        Err(error) => return Err(error),
    };
    match found {
        Some(Ok(canonical)) => Ok(canonical.clone()),
        Some(Err(error)) => Err(error.clone()),
        None => if expanded.is_absolute() {
            Ok(expanded)
        } else {
            Err(
                IoError::new(
                    IoErrorKind::InvalidInput,
                    "folder path must exist or be an absolute path that matches a configured watch",
                ),
            )
        },
    }
}

/// Whether a path is that of an ignore file.
pub open spec fn is_gitignore(path: Seq<u8>) -> bool {
    name_of(path) == Some(spelled(".gitignore"@))
}

/// The file of ignore rules that belong to one copy of a repository.
pub open spec fn info_exclude_of(root: Seq<u8>) -> Seq<u8> {
    joined(joined(git_dir_of(root), spelled("info"@)), spelled("exclude"@))
}

/// Adds the ignore files among the paths found in a folder.
pub fn add_folder_gitignores(walked: &Vec<FsPath>, sources: &mut Vec<FsPath>)
    ensures
        seq_view(final(sources)@) == seq_view(old(sources)@) + seq_view(walked@).filter(
            |p: Seq<u8>| is_gitignore(p),
        ),
{
    let name = FsPath::from_text(".gitignore");
    let ghost keep = |p: Seq<u8>| is_gitignore(p);
    let ghost start = seq_view(sources@);
    let ghost all = seq_view(walked@);
    let mut i: usize = 0;
    proof {
        reveal(Seq::filter);
        assert(start + all.take(0).filter(keep) =~= start);
    }
    while i < walked.len()
        invariant
            i <= walked@.len() == all.len(),
            all == seq_view(walked@),
            name@ == spelled(".gitignore"@),
            keep == (|p: Seq<u8>| is_gitignore(p)),
            seq_view(sources@) == start + all.take(i as int).filter(keep),
        decreases walked@.len() - i,
    {
        let ghost before = sources@;
        let is_source = match walked[i].file_name() {
            Some(found) => found.same_bytes(&name),
            None => false,
        };
        proof {
            reveal(Seq::filter);
            assert(all.take(i + 1).drop_last() =~= all.take(i as int));
            assert(all.take(i + 1).last() == walked@[i as int]@);
        }
        if is_source {
            sources.push(walked[i].clone());
            assert(seq_view(sources@) =~= seq_view(before).push(walked@[i as int]@));
        }
        assert(seq_view(sources@) =~= start + all.take(i + 1).filter(keep));
        i += 1;
    }
    assert(all.take(i as int) =~= all);
}

/// Adds the repository's own ignore file, where it exists.
pub fn add_folder_info_exclude(root: &FsPath, present: bool, sources: &mut Vec<FsPath>)
    ensures
        present ==> seq_view(final(sources)@) == seq_view(old(sources)@).push(info_exclude_of(root@)),
        !present ==> seq_view(final(sources)@) == seq_view(old(sources)@),
{
    if present {
        let exclude = info_exclude_path(root);
        sources.push(exclude);
        assert(seq_view(sources@) =~= seq_view(old(sources)@).push(info_exclude_of(root@)));
    }
}

/// Where a repository's own ignore file stands.
pub fn info_exclude_path(root: &FsPath) -> (path: FsPath)
    ensures
        path@ == info_exclude_of(root@),
{
    let git_dir = root.join(&FsPath::from_text(".git"));
    git_dir.join(&FsPath::from_text("info")).join(&FsPath::from_text("exclude"))
}

/// Adds the user's ignore file, where one is configured and exists.
pub fn add_global_gitignore(global: Option<FsPath>, present: bool, sources: &mut Vec<FsPath>)
    ensures
        present && global is Some ==> seq_view(final(sources)@) == seq_view(old(sources)@).push(
            global->0@,
        ),
        !(present && global is Some) ==> seq_view(final(sources)@) == seq_view(old(sources)@),
{
    if present {
        if let Some(path) = global {
            sources.push(path);
            assert(seq_view(sources@) =~= seq_view(old(sources)@).push(path@));
        }
    }
}

/// The ignore files of a folder in the order in which their rules count: those
/// found in it, the repository's own, and the user's.
pub open spec fn sources_of(
    root: Seq<u8>,
    walked: Seq<Seq<u8>>,
    exclude_present: bool,
    global: Option<Seq<u8>>,
    global_present: bool,
) -> Seq<Seq<u8>> {
    walked.filter(|p: Seq<u8>| is_gitignore(p)) + (if exclude_present {
        seq![info_exclude_of(root)]
    } else {
        seq![]
    }) + (if global_present && global is Some {
        seq![global->0]
    } else {
        seq![]
    })
}

/// The ignore files of a folder, in the order in which their rules count.
pub fn ignore_sources(
    root: &FsPath,
    walked: &Vec<FsPath>,
    exclude_present: bool,
    global: Option<FsPath>,
    global_present: bool,
) -> (sources: Vec<FsPath>)
    ensures
        seq_view(sources@) == sources_of(
            root@,
            seq_view(walked@),
            exclude_present,
            option_view(global),
            global_present,
        ),
{
    let mut sources: Vec<FsPath> = Vec::new();
    let ghost want = sources_of(
        root@,
        seq_view(walked@),
        exclude_present,
        option_view(global),
        global_present,
    );
    add_folder_gitignores(walked, &mut sources);
    add_folder_info_exclude(root, exclude_present, &mut sources);
    add_global_gitignore(global, global_present, &mut sources);
    assert(seq_view(sources@) =~= want);
    sources
}

/// Git's own data lies in the folder.
pub proof fn law_git_paths_lie_in_folder(folder: FolderView, path: Seq<u8>)
    requires
        folder.wf(),
        folder.holds_git_path(path),
    ensures
        is_under(path, folder.root),
{
    let name = spelled(".git"@);
    reveal_strlit(".git");
    vstd::utf8::is_ascii_chars_encode_utf8(".git"@);
    assert(name[0] == 46);
    law_join_then_strip(folder.root, name);
    law_under_is_an_order(path, git_dir_of(folder.root), folder.root);
}

/// A folder's Git directory is the entry `.git` in it.
pub proof fn law_git_directory_is_in_the_root(root: Seq<u8>)
    requires
        root.len() > 0,
    ensures
        components(git_dir_of(root)) == components(root).push(encode_utf8(".git"@)),
{
    let name = encode_utf8(".git"@);
    reveal_strlit(".git");
    vstd::utf8::is_ascii_chars_encode_utf8(".git"@);
    assert(name.len() == 4 && name[0] == 46 && name[1] == 103 && name[2] == 105 && name[3] == 116);
    assert(!name.contains(SLASH));
    lemma_single_component(name);
    lemma_joined(root, name);
    assert(components(name)[0] != seq![DOT]) by {
        assert(seq![DOT].len() == 1);
    }
    assert(components(root) + seq![name] =~= components(root).push(name));
}

/// A path leads to a directory where it can be expanded and there is a directory: to the
/// canonical path of that. Where it does not, the first thing that failed says why.
pub proof fn law_only_directories_are_resolved(
    path: Seq<u8>,
    env: Vars,
    canonical: Result<Seq<u8>, IoErrorView>,
    is_dir: bool,
)
    ensures
        existing_dir(path, env, canonical, is_dir) is Ok <==> path_expanded(path, env) is Ok
            && canonical is Ok && is_dir,
        existing_dir(path, env, canonical, is_dir) matches Ok(root) ==> canonical == Ok::<
            Seq<u8>,
            IoErrorView,
        >(root),
        path_expanded(path, env) matches Err(error) ==> existing_dir(path, env, canonical, is_dir)
            == Err::<Seq<u8>, IoErrorView>(error),
        path_expanded(path, env) is Ok && canonical is Err ==> existing_dir(
            path,
            env,
            canonical,
            is_dir,
        ) == canonical,
        path_expanded(path, env) is Ok && canonical is Ok && !is_dir ==> existing_dir(
            path,
            env,
            canonical,
            is_dir,
        ) == Err::<Seq<u8>, IoErrorView>(
            IoErrorView {
                kind: IoErrorKind::InvalidInput,
                message: "folder path must be a directory"@,
            },
        ),
{
}

/// A directory that a path leads to is a folder with that root; it is in Git mode just
/// where its `.git` is a directory, and then all rules of all its ignore files are in
/// force. Only rules that cannot be used make it none.
pub proof fn law_directories_are_discovered(
    path: Seq<u8>,
    env: Vars,
    canonical: Result<Seq<u8>, IoErrorView>,
    is_dir: bool,
    git_is_dir: bool,
    files: Seq<Seq<Seq<char>>>,
)
    ensures
        (match (
            existing_dir(path, env, canonical, is_dir),
            discovered(path, env, canonical, is_dir, git_is_dir, files),
        ) {
            (Err(error), out) => out == Err::<FolderView, IoErrorView>(error),
            (Ok(root), Ok(folder)) => {
                &&& folder.root == root
                &&& folder.git is Some <==> git_is_dir
                &&& folder.git matches Some(git) ==> git.patterns == all_patterns(files)
                    && git.git_dir == git_dir_of(root)
            },
            (Ok(_), Err(error)) => git_is_dir && build_error(all_patterns(files)) == Some(
                error.message,
            ),
        }),
        all_patterns(files).len() == 0 && build_error(all_patterns(files)) is None ==> (
        discovered(path, env, canonical, is_dir, git_is_dir, files) is Ok <==> existing_dir(
            path,
            env,
            canonical,
            is_dir,
        ) is Ok),
{
}

/// Every rule in every ignore file of a folder in Git mode is among the rules that the
/// folder goes by.
pub proof fn law_folders_go_by_every_rule(
    path: Seq<u8>,
    env: Vars,
    canonical: Result<Seq<u8>, IoErrorView>,
    is_dir: bool,
    files: Seq<Seq<Seq<char>>>,
    f: int,
    l: int,
    pattern: Seq<char>,
)
    requires
        0 <= f < files.len(),
        0 <= l < files[f].len(),
        line_patterns(
            if l == 0 {
                without_marks(files[f][0])
            } else {
                files[f][l]
            },
        ).contains(pattern),
    ensures
        discovered(path, env, canonical, is_dir, true, files) matches Ok(folder) ==> (
        folder.git matches Some(git) && git.patterns.contains(pattern)),
{
    law_every_rule_counts(files, f, l, pattern);
}

/// A folder in Git mode ignores a path in it by what its rules say about the path, or else
/// about the nearest directory above it; a plain folder ignores nothing.
pub proof fn law_folders_ignore_by_their_rules(folder: FolderView, rel: Seq<u8>, is_dir: bool)
    requires
        folder.wf(),
        !is_absolute(rel),
        !seq![DOT, SLASH].is_prefix_of(rel),
    ensures
        folder.git is None ==> !folder.ignores(rel, is_dir),
        folder.git matches Some(git) ==> git.patterns.len() == 0 ==> !folder.ignores(rel, is_dir),
        folder.git matches Some(git) ==> git.patterns.len() > 0 ==> folder.ignores(rel, is_dir)
            == nearest_verdict(git.patterns, rel, is_dir),
{
    lemma_matchable(folder.root, rel);
}

/// Git's own data is what lies in the folder's `.git`, in Git mode.
pub proof fn law_git_data_lies_in_the_git_directory(folder: FolderView, path: Seq<u8>)
    requires
        folder.wf(),
    ensures
        folder.holds_git_path(path) <==> folder.git is Some && components(folder.root).push(
            encode_utf8(".git"@),
        ).is_prefix_of(components(path)),
{
    law_git_directory_is_in_the_root(folder.root);
}

/// What is there counts by its canonical path; what is not there counts as it is spelled,
/// where it is absolute.
pub proof fn law_roots_are_normalized(
    path: Seq<u8>,
    env: Vars,
    found: Option<Result<Seq<u8>, IoErrorView>>,
)
    ensures
        path_expanded(path, env) matches Err(error) ==> normalized_root(path, env, found)
            == Err::<Seq<u8>, IoErrorView>(error),
        path_expanded(path, env) is Ok && found is Some ==> normalized_root(path, env, found)
            == found->0,
        path_expanded(path, env) matches Ok(expanded) ==> found is None ==> (if is_absolute(
            expanded,
        ) {
            normalized_root(path, env, found) == Ok::<Seq<u8>, IoErrorView>(expanded)
        } else {
            normalized_root(path, env, found) matches Err(error) && error.kind
                == IoErrorKind::InvalidInput
        }),
{
}

/// The ignore files of a folder are those of that name in it, the repository's own and the
/// user's, and no others.
pub proof fn law_ignore_files_are_these(
    root: Seq<u8>,
    walked: Seq<Seq<u8>>,
    exclude_present: bool,
    global: Option<Seq<u8>>,
    global_present: bool,
    file: Seq<u8>,
)
    ensures
        sources_of(root, walked, exclude_present, global, global_present).contains(file) <==> {
            ||| walked.contains(file) && components(file).len() > 0 && components(file).last()
                == encode_utf8(".gitignore"@)
            ||| exclude_present && file == info_exclude_of(root)
            ||| global_present && global == Some(file)
        },
{
    let name = encode_utf8(".gitignore"@);
    reveal_strlit(".gitignore");
    vstd::utf8::is_ascii_chars_encode_utf8(".gitignore"@);
    assert(name.len() == 10);
    assert(seq![SLASH].len() == 1 && seq![DOT].len() == 1 && seq![DOT, DOT].len() == 2);
    let keep = |p: Seq<u8>| is_gitignore(p);
    let a = walked.filter(keep);
    let b = if exclude_present {
        seq![info_exclude_of(root)]
    } else {
        seq![]
    };
    let c = if global_present && global is Some {
        seq![global->0]
    } else {
        seq![]
    };
    let all = sources_of(root, walked, exclude_present, global, global_present);
    assert(all =~= a + b + c);
    lemma_filter_leaves(walked, keep);
    lemma_filter_keeps(walked, keep);
    if all.contains(file) {
        let i = choose|i: int| 0 <= i < all.len() && all[i] == file;
        if i < a.len() {
            assert(a[i] == file);
            assert(walked.contains(a[i]) && keep(a[i]));
        }
    }
    if walked.contains(file) && is_gitignore(file) {
        let k = choose|k: int| 0 <= k < walked.len() && walked[k] == file;
        assert(keep(walked[k]));
        let i = choose|i: int| 0 <= i < a.len() && a[i] == file;
        assert(all[i] == file);
    }
    if exclude_present && file == info_exclude_of(root) {
        assert(all[a.len() as int] == file);
    }
    if global_present && global == Some(file) {
        assert(all[(a.len() + b.len()) as int] == file);
    }
}

/// The rules of the user's file count last, those of the repository's own file before
/// them, and those of the files in the folder first.
pub proof fn law_ignore_files_count_in_order(
    root: Seq<u8>,
    walked: Seq<Seq<u8>>,
    exclude_present: bool,
    global: Option<Seq<u8>>,
    global_present: bool,
)
    ensures
        global_present && global is Some ==> sources_of(
            root,
            walked,
            exclude_present,
            global,
            global_present,
        ).last() == global->0,
        exclude_present ==> sources_of(root, walked, true, None, false).last() == info_exclude_of(
            root,
        ),
        sources_of(root, walked, false, None, false).is_prefix_of(
            sources_of(root, walked, exclude_present, None, false),
        ),
        sources_of(root, walked, exclude_present, None, false).is_prefix_of(
            sources_of(root, walked, exclude_present, global, global_present),
        ),
        forall|more: Seq<Seq<u8>>| #[trigger]
            sources_of(root, walked + more, false, None, false) == sources_of(
                root,
                walked,
                false,
                None,
                false,
            ) + sources_of(root, more, false, None, false),
{
    assert forall|more: Seq<Seq<u8>>| #[trigger]
        sources_of(root, walked + more, false, None, false) == sources_of(
            root,
            walked,
            false,
            None,
            false,
        ) + sources_of(root, more, false, None, false) by {
        Seq::filter_distributes_over_add(walked, more, |p: Seq<u8>| is_gitignore(p));
        assert(sources_of(root, walked + more, false, None, false) =~= sources_of(
            root,
            walked,
            false,
            None,
            false,
        ) + sources_of(root, more, false, None, false));
    }
    let x = sources_of(root, walked, false, None, false);
    let y = sources_of(root, walked, exclude_present, None, false);
    let z = sources_of(root, walked, exclude_present, global, global_present);
    assert(y.subrange(0, x.len() as int) =~= x);
    assert(z.subrange(0, y.len() as int) =~= y);
}

/// The repository's own ignore file is `info/exclude` in its Git directory.
pub proof fn law_own_ignore_file_is_in_the_git_directory(root: Seq<u8>)
    requires
        root.len() > 0,
    ensures
        components(info_exclude_of(root)) == components(root) + seq![
            encode_utf8(".git"@),
            encode_utf8("info"@),
            encode_utf8("exclude"@),
        ],
{
    let info = encode_utf8("info"@);
    let exclude = encode_utf8("exclude"@);
    reveal_strlit("info");
    reveal_strlit("exclude");
    vstd::utf8::is_ascii_chars_encode_utf8("info"@);
    vstd::utf8::is_ascii_chars_encode_utf8("exclude"@);
    assert(info.len() == 4 && exclude.len() == 7);
    assert(!info.contains(SLASH));
    assert(!exclude.contains(SLASH));
    lemma_single_component(info);
    lemma_single_component(exclude);
    law_git_directory_is_in_the_root(root);
    let git = git_dir_of(root);
    let inner = joined(git, info);
    lemma_joined(git, info);
    lemma_joined(inner, exclude);
    assert(seq![DOT].len() == 1);
    assert(components(info_exclude_of(root)) =~= components(root) + seq![
        encode_utf8(".git"@),
        info,
        exclude,
    ]);
}

} // verus!
