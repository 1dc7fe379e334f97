//! Watched folders, repositories and their ignore rules.

use gongd::environment::Environment;
use gongd::error::{IoError, IoErrorKind};
use gongd::folder::{
    ignore_sources, info_exclude_path, normalize_folder_root, resolve_existing_dir, DirProbe,
    FolderProbe, MonitoredFolder,
};
use gongd::fs_path::FsPath;
use gongd::ignore_rules::{build_ignore_matcher, IgnoreFile};
use gongd::repo::{build_startup_repos, normalize_repo_root, RepoProbe, RepoState};

fn path(text: &str) -> FsPath {
    FsPath::from_text(text)
}

fn env(vars: &[(&str, &str)]) -> Environment {
    Environment {
        vars: vars.iter().map(|(name, value)| (name.to_string(), value.to_string())).collect(),
    }
}

fn dir(root: &str) -> DirProbe {
    DirProbe { canonical: Ok(path(root)), is_dir: true }
}

fn ignore_file(at: &FsPath, contents: &str) -> IgnoreFile {
    IgnoreFile { path: at.clone(), lines: contents.lines().map(str::to_owned).collect() }
}

/// A folder in Git mode with the given ignore files.
fn git_folder(root: &str, ignore_files: Vec<IgnoreFile>) -> MonitoredFolder {
    let probe = FolderProbe { dir: dir(root), git_is_dir: true, ignore_files };
    MonitoredFolder::discover(&path(root), &env(&[]), &probe).unwrap()
}

fn repo(root: &str, ignore_files: Vec<IgnoreFile>) -> RepoState {
    RepoState::discover(&RepoProbe {
        path: path(root),
        canonical: Ok(path(root)),
        git_present: true,
        git_is_dir: true,
        ignore_files,
    })
    .unwrap()
}

#[test]
fn discover_accepts_plain_directory_without_git_mode() {
    let root = "/tmp/gongd-plain-folder";
    let probe = FolderProbe { dir: dir(root), git_is_dir: false, ignore_files: Vec::new() };
    let folder = MonitoredFolder::discover(&path(root), &env(&[]), &probe).unwrap();

    assert_eq!(*folder.root(), path(root));
    assert!(folder.git_dir().is_none());
}

#[test]
fn discover_enables_git_mode_only_for_git_directory() {
    let root = "/tmp/gongd-git-folder";
    let folder = git_folder(root, Vec::new());

    assert_eq!(*folder.git_dir().unwrap(), path(root).join(&path(".git")));
}

#[test]
fn discover_treats_git_file_as_plain_folder() {
    // `.git` is a file that holds "gitdir: /tmp/other\n".
    let root = "/tmp/gongd-git-file-folder";
    let probe = FolderProbe { dir: dir(root), git_is_dir: false, ignore_files: Vec::new() };
    let folder = MonitoredFolder::discover(&path(root), &env(&[]), &probe).unwrap();

    assert!(folder.git_dir().is_none());
    assert!(!folder.is_inside_git_dir(&path(root).join(&path(".git"))));
}

#[test]
fn folder_build_ignore_matcher_filters_paths_under_ignored_directories() {
    let root = "/tmp/gongd-ignore-parent";
    let file = ignore_file(&path(root).join(&path(".gitignore")), "ignored-dir/\n");
    let folder = git_folder(root, vec![file]);

    assert!(folder.is_worktree_ignored(&path("ignored-dir/child.txt"), false));
}

#[test]
fn build_ignore_matcher_ignores_git_local_excludesfile_from_launch_directory() {
    // The launch directory's `.git/config` says "[core]\n\texcludesFile =
    // /tmp/should-not-apply\n", and the user has configured no ignore file.
    let root = path("/tmp/gongd-watched");
    let sources = ignore_sources(&root, &Vec::new(), false, None, false);
    assert!(sources.is_empty());
    let folder = git_folder("/tmp/gongd-watched", Vec::new());

    assert!(!folder.is_worktree_ignored(&path("wrongly-ignored"), false));
}

#[test]
fn folder_build_ignore_matcher_respects_global_excludesfile() {
    let root = path("/tmp/gongd-watched");
    let global = path("/tmp/gongd-home/.config/git/global-ignore");
    let sources = ignore_sources(&root, &Vec::new(), false, Some(global.clone()), true);
    assert_eq!(sources, vec![global]);
    let files = sources.iter().map(|at| ignore_file(at, "globally-ignored\n")).collect();
    let folder = git_folder("/tmp/gongd-watched", files);

    assert!(folder.is_worktree_ignored(&path("globally-ignored"), false));
}

#[test]
fn normalize_folder_root_expands_home_prefix() {
    let home = "/tmp/gongd-home";
    let folder = path(home).join(&path("folder"));
    let env = env(&[("HOME", home)]);

    let found = Some(Ok(folder.clone()));
    assert_eq!(normalize_folder_root(&path("~/folder"), &env, &found).unwrap(), folder);
    assert_eq!(normalize_folder_root(&path("~/folder"), &env, &None).unwrap(), folder);
}

#[test]
fn repo_build_ignore_matcher_filters_paths_under_ignored_directories() {
    let root = "/tmp/gongd-ignore-parent";
    let file = ignore_file(&path(root).join(&path(".gitignore")), "ignored-dir/\n");
    let repo = repo(root, vec![file]);

    assert!(repo.is_worktree_ignored(&path("ignored-dir/child.txt"), false));
}

#[test]
fn build_ignore_matcher_ignores_repo_local_excludesfile_from_launch_directory() {
    // The launch directory's `.git/config` says "[core]\n\texcludesFile =
    // /tmp/should-not-apply\n", and the user has configured no ignore file.
    let repo = repo("/tmp/gongd-watched", Vec::new());

    assert!(!repo.is_worktree_ignored(&path("wrongly-ignored"), false));
}

#[test]
fn repo_build_ignore_matcher_respects_global_excludesfile() {
    let global = path("/tmp/gongd-home/.config/git/global-ignore");
    let repo = repo("/tmp/gongd-watched", vec![ignore_file(&global, "globally-ignored\n")]);

    assert!(repo.is_worktree_ignored(&path("globally-ignored"), false));
}

#[test]
fn ignore_files_count_in_order() {
    let root = path("/work/api");
    let walked = vec![
        path("/work/api/a.txt"),
        path("/work/api/.gitignore"),
        path("/work/api/sub/.gitignore"),
        path("/work/api/x.gitignore"),
    ];
    let sources = ignore_sources(&root, &walked, true, Some(path("/home/u/ignore")), true);
    assert_eq!(
        sources,
        vec![
            path("/work/api/.gitignore"),
            path("/work/api/sub/.gitignore"),
            path("/work/api/.git/info/exclude"),
            path("/home/u/ignore"),
        ]
    );
    assert_eq!(info_exclude_path(&root), path("/work/api/.git/info/exclude"));
    assert!(ignore_sources(&root, &Vec::new(), false, Some(path("/home/u/ignore")), false).is_empty());
}

#[test]
fn nearest_directory_decides() {
    let at = path("/work/api/.gitignore");
    let folder = git_folder("/work/api", vec![ignore_file(&at, "out/\n!out/keep/\n")]);
    assert!(folder.is_worktree_ignored(&path("out/a/b/c.txt"), false));
    assert!(folder.is_worktree_ignored(&path("out/a"), true));
    assert!(!folder.is_worktree_ignored(&path("out/keep/a/b.txt"), false));
    assert!(!folder.is_worktree_ignored(&path("other/a.txt"), false));
}

#[test]
fn later_rules_override_earlier_ones() {
    let at = path("/work/api/.gitignore");
    let folder = git_folder("/work/api", vec![ignore_file(&at, "*.log\n!keep.log\n")]);
    assert!(folder.is_worktree_ignored(&path("a.log"), false));
    assert!(!folder.is_worktree_ignored(&path("keep.log"), false));
    assert!(!folder.is_worktree_ignored(&path("a.txt"), false));
}

#[test]
fn directory_rules_spare_files() {
    let at = path("/work/api/.gitignore");
    let folder = git_folder("/work/api", vec![ignore_file(&at, "build/\n")]);
    assert!(folder.is_worktree_ignored(&path("build"), true));
    assert!(!folder.is_worktree_ignored(&path("build"), false));
}

#[test]
fn rooted_rules_are_relative_to_the_root() {
    let at = path("/work/api/.gitignore");
    let folder = git_folder("/work/api", vec![ignore_file(&at, "/top\n")]);
    assert!(folder.is_worktree_ignored(&path("top"), false));
    assert!(!folder.is_worktree_ignored(&path("sub/top"), false));
}

#[test]
fn comments_blank_lines_and_marks_give_no_rules() {
    let at = path("/work/api/.gitignore");
    let folder = git_folder("/work/api", vec![ignore_file(&at, "# a\n\n  \n")]);
    assert!(!folder.is_worktree_ignored(&path("# a"), false));
    let folder = git_folder("/work/api", vec![ignore_file(&at, "\u{feff}a.txt\n\u{feff}b.txt\n")]);
    assert!(folder.is_worktree_ignored(&path("a.txt"), false));
    assert!(!folder.is_worktree_ignored(&path("b.txt"), false));
}

#[test]
fn invalid_rules_are_left_out() {
    let at = path("/work/api/.gitignore");
    let folder = git_folder("/work/api", vec![ignore_file(&at, "a{b\nc.txt\n")]);
    assert!(folder.is_worktree_ignored(&path("c.txt"), false));
    assert!(!folder.is_worktree_ignored(&path("a"), false));
}

#[test]
fn matcher_can_be_made_without_files() {
    assert!(build_ignore_matcher(&path("/work/api"), &Vec::new()).is_ok());
}

#[test]
fn plain_folder_ignores_nothing() {
    let probe = FolderProbe {
        dir: dir("/work/api"),
        git_is_dir: false,
        ignore_files: vec![ignore_file(&path("/work/api/.gitignore"), "*\n")],
    };
    let folder = MonitoredFolder::discover(&path("/work/api"), &env(&[]), &probe).unwrap();
    assert!(!folder.is_worktree_ignored(&path("a"), false));
}

#[test]
fn git_paths_lie_in_the_git_directory() {
    let folder = git_folder("/work/api", Vec::new());
    assert!(folder.is_inside_git_dir(&path("/work/api/.git")));
    assert!(folder.is_inside_git_dir(&path("/work/api/.git/refs/heads")));
    assert!(!folder.is_inside_git_dir(&path("/work/api/.github/x")));
    assert!(!folder.is_inside_git_dir(&path("/work/api")));
}

#[test]
fn copies_of_a_folder_ignore_the_same() {
    let at = path("/work/api/.gitignore");
    let folder = git_folder("/work/api", vec![ignore_file(&at, "a.txt\n")]);
    let copy = folder.clone();
    assert!(*copy.root() == *folder.root());
    assert!(copy.is_worktree_ignored(&path("a.txt"), false));

    let repo = repo("/work/api", vec![ignore_file(&at, "a.txt\n")]);
    let copy = repo.clone();
    assert!(*copy.git_dir() == *repo.git_dir());
    assert!(copy.is_worktree_ignored(&path("a.txt"), false));
}

#[test]
fn only_directories_are_folders() {
    let file = DirProbe { canonical: Ok(path("/work/file")), is_dir: false };
    let err = resolve_existing_dir(&path("/work/file"), &env(&[]), &file).unwrap_err();
    assert_eq!(err.kind, IoErrorKind::InvalidInput);
    assert_eq!(err.message, "folder path must be a directory");

    let missing = DirProbe {
        canonical: Err(IoError::new(IoErrorKind::NotFound, "No such file or directory")),
        is_dir: false,
    };
    let err = resolve_existing_dir(&path("/work/none"), &env(&[]), &missing).unwrap_err();
    assert_eq!(err.kind, IoErrorKind::NotFound);

    let err = resolve_existing_dir(&path("$NOPE"), &env(&[]), &dir("/work")).unwrap_err();
    assert_eq!(err.message, "environment variable NOPE is not set");
}

#[test]
fn relative_roots_must_be_there() {
    let none = env(&[]);
    let err = normalize_folder_root(&path("api"), &none, &None).unwrap_err();
    assert_eq!(err.kind, IoErrorKind::InvalidInput);
    assert_eq!(
        err.message,
        "folder path must exist or be an absolute path that matches a configured watch"
    );
    let found = Some(Ok(path("/work/api")));
    assert_eq!(normalize_folder_root(&path("api"), &none, &found).unwrap(), path("/work/api"));
    let broken = Some(Err(IoError::new(IoErrorKind::Other, "loop")));
    assert_eq!(normalize_folder_root(&path("api"), &none, &broken).unwrap_err().message, "loop");
}

#[test]
fn repositories_need_a_git_directory() {
    let bare = RepoProbe {
        path: path("/work/api"),
        canonical: Ok(path("/work/api")),
        git_present: false,
        git_is_dir: false,
        ignore_files: Vec::new(),
    };
    let err = RepoState::discover(&bare).unwrap_err();
    assert_eq!(err.kind, IoErrorKind::InvalidInput);
    assert_eq!(err.message, "no .git directory found");

    let file = RepoProbe { git_present: true, ..bare };
    let err = RepoState::discover(&file).unwrap_err();
    assert_eq!(err.kind, IoErrorKind::InvalidInput);
    assert_eq!(
        err.message,
        ".git is not a directory (git worktrees and gitdir files are not yet supported)"
    );

    let missing = RepoProbe {
        canonical: Err(IoError::new(IoErrorKind::NotFound, "gone")),
        ..file
    };
    assert_eq!(RepoState::discover(&missing).unwrap_err().message, "gone");
}

#[test]
fn startup_repositories_are_distinct() {
    let probe = |root: &str, git: bool| RepoProbe {
        path: path(root),
        canonical: Ok(path(root)),
        git_present: git,
        git_is_dir: git,
        ignore_files: Vec::new(),
    };
    let found = build_startup_repos(&vec![
        probe("/work/b", true),
        probe("/work/plain", false),
        probe("/work/a", true),
        probe("/work/b", true),
    ]);
    let repos = found.repos;
    let roots: Vec<String> = repos.iter().map(|repo| repo.root().display()).collect();
    assert_eq!(roots, vec!["/work/b", "/work/a"]);
    let texts: Vec<String> = found.skipped.iter().map(|entry| entry.text()).collect();
    assert_eq!(texts, vec!["skipping /work/plain: no .git directory found"]);
    assert_eq!(*repos[0].git_dir(), path("/work/b/.git"));
    assert!(repos[0].is_inside_git_dir(&path("/work/b/.git/HEAD")));
}

#[test]
fn repository_roots_are_normalized() {
    assert_eq!(normalize_repo_root(&path("/gone"), &None).unwrap(), path("/gone"));
    let found = Some(Ok(path("/real")));
    assert_eq!(normalize_repo_root(&path("link"), &found).unwrap(), path("/real"));
    let err = normalize_repo_root(&path("gone"), &None).unwrap_err();
    assert_eq!(err.kind, IoErrorKind::InvalidInput);
    assert_eq!(
        err.message,
        "repo path must exist or be an absolute path that matches a configured watch"
    );
}
