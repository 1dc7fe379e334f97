//! From reports of the file system to events.

use gongd::clock::{now_ms, since_epoch, Moment};
use gongd::dedup::{DedupKey, Deduper};
use gongd::environment::Environment;
use gongd::event::{
    folder_for, git_event_type, is_rename_event, rename_entry_kind, worktree_entry_kind,
    worktree_event_type, CreateKind, EntryKind, EventKind, FsEvent, ModifyKind, RemoveKind, SeenPath,
};
use gongd::folder::{DirProbe, FolderProbe, MonitoredFolder};
use gongd::fs_path::FsPath;
use gongd::ignore_rules::IgnoreFile;
use gongd::protocol::{EventType, WireEvent};
use gongd::translate::{translate_event, translate_path_event, translate_rename};

const MILLI: u128 = 1_000_000;

fn path(text: &str) -> FsPath {
    FsPath::from_text(text)
}

fn folder(root: &str, git: bool, gitignore: &str) -> MonitoredFolder {
    let probe = FolderProbe {
        dir: DirProbe { canonical: Ok(path(root)), is_dir: true },
        git_is_dir: git,
        ignore_files: vec![IgnoreFile {
            path: path(root).join(&path(".gitignore")),
            lines: gitignore.lines().map(str::to_owned).collect(),
        }],
    };
    MonitoredFolder::discover(&path(root), &Environment { vars: Vec::new() }, &probe).unwrap()
}

fn deduper() -> Deduper {
    Deduper::new(MILLI)
}

fn seen(text: &str, is_dir: bool) -> SeenPath {
    SeenPath { path: path(text), is_dir }
}

fn report(kind: EventKind, paths: Vec<SeenPath>) -> FsEvent {
    FsEvent { kind, paths }
}

fn types(events: &[WireEvent]) -> Vec<EventType> {
    events.iter().map(|e| e.event_type).collect()
}

fn at(nanos: u128) -> Moment {
    Moment { nanos, unix_ms: 1_710_000_000_000 }
}

#[test]
fn ignored_directory_remove_uses_notify_folder_kind() {
    let tmp = "/tmp/gongd-event-remove-dir";
    let folder = folder(tmp, true, "ignored-dir/\n");
    let ignored_dir = path(tmp).join(&path("ignored-dir"));

    let event = FsEvent {
        kind: EventKind::Remove(RemoveKind::Folder),
        paths: vec![SeenPath { path: ignored_dir, is_dir: false }],
    };

    let translated = translate_event(&vec![folder], &event, &mut deduper());

    assert!(translated.is_empty());
}

#[test]
fn plain_folder_emits_file_event_without_gitignore_filtering() {
    let tmp = "/tmp/gongd-event-plain-folder";
    let folder = folder(tmp, false, "ignored.txt\n");
    let file = path(tmp).join(&path("ignored.txt"));

    let event = FsEvent {
        kind: EventKind::Create(CreateKind::File),
        paths: vec![SeenPath { path: file, is_dir: false }],
    };

    let translated = translate_event(&vec![folder], &event, &mut deduper());

    assert_eq!(types(&translated), vec![EventType::FileCreated]);
    assert_eq!(translated[0].path.as_deref(), Some("ignored.txt"));
}

#[test]
fn directory_modify_emits_dir_modified() {
    let tmp = "/tmp/gongd-event-modify-dir";
    let folder = folder(tmp, true, "");
    let dir = path(tmp).join(&path("tracked-dir"));

    let event = FsEvent {
        kind: EventKind::Modify(ModifyKind::Metadata),
        paths: vec![SeenPath { path: dir, is_dir: true }],
    };

    let translated = translate_event(&vec![folder], &event, &mut deduper());

    assert_eq!(types(&translated), vec![EventType::DirModified]);
}

#[test]
fn git_metadata_event_uses_git_event_type() {
    let tmp = "/tmp/gongd-event-git-head";
    let folder = folder(tmp, true, "");
    let head = path(tmp).join(&path(".git")).join(&path("HEAD"));

    let event = FsEvent {
        kind: EventKind::Modify(ModifyKind::Any),
        paths: vec![SeenPath { path: head, is_dir: false }],
    };

    let translated = translate_event(&vec![folder], &event, &mut deduper());

    assert_eq!(types(&translated), vec![EventType::GitHeadChanged]);
    assert_eq!(translated[0].git_path.as_deref(), Some("HEAD"));
}

#[test]
fn events_carry_one_kind_of_path() {
    let folders = vec![folder("/work/api", true, "")];
    let kind = EventKind::Modify(ModifyKind::Data);
    let mut deduper = deduper();
    let file = seen("/work/api/src/main.rs", false);
    let event = translate_path_event(&folders, &file, kind, &mut deduper, at(0)).unwrap();
    assert_eq!(event.folder, "/work/api");
    assert_eq!(event.event_type, EventType::FileModified);
    assert_eq!(event.path.as_deref(), Some("src/main.rs"));
    assert_eq!(event.git_path, None);
    assert_eq!(event.ts_unix_ms, 1_710_000_000_000);

    let index = seen("/work/api/.git/index", false);
    let event = translate_path_event(&folders, &index, kind, &mut deduper, at(0)).unwrap();
    assert_eq!(event.event_type, EventType::GitIndexChanged);
    assert_eq!(event.path, None);
    assert_eq!(event.git_path.as_deref(), Some("index"));
}

#[test]
fn paths_outside_the_folders_are_not_told() {
    let folders = vec![folder("/work/api", true, "")];
    let kind = EventKind::Create(CreateKind::File);
    let other = seen("/work/api2/x", false);
    assert!(translate_path_event(&folders, &other, kind, &mut deduper(), at(0)).is_none());
}

#[test]
fn git_data_is_told_whatever_is_ignored() {
    let folders = vec![folder("/work/api", true, "*\n")];
    let kind = EventKind::Modify(ModifyKind::Any);
    let refs = seen("/work/api/.git/refs/heads/main", false);
    let event = translate_path_event(&folders, &refs, kind, &mut deduper(), at(0)).unwrap();
    assert_eq!(event.event_type, EventType::GitRefsChanged);
    assert_eq!(event.git_path.as_deref(), Some("refs/heads/main"));
    let access = EventKind::Access;
    assert!(translate_path_event(&folders, &refs, access, &mut deduper(), at(0)).is_none());
}

#[test]
fn backslashes_in_git_paths_become_slashes() {
    let folders = vec![folder("/work/api", true, "")];
    let kind = EventKind::Create(CreateKind::File);
    let odd = seen("/work/api/.git/refs\\heads", false);
    let event = translate_path_event(&folders, &odd, kind, &mut deduper(), at(0)).unwrap();
    assert_eq!(event.event_type, EventType::GitRefsChanged);
    assert_eq!(event.git_path.as_deref(), Some("refs/heads"));
}

#[test]
fn renames_name_both_paths() {
    let folders = vec![folder("/work/api", true, "*.log\n")];
    let kind = EventKind::Modify(ModifyKind::Name);
    let event = report(kind, vec![seen("/work/api/a", false), seen("/work/api/b", false)]);
    let told = translate_rename(&folders, &event, &mut deduper(), at(0)).unwrap();
    assert_eq!(told.event_type, EventType::FileRenamed);
    assert_eq!(told.path.as_deref(), Some("a -> b"));

    let event = report(kind, vec![seen("/work/api/a", false), seen("/work/api/b", true)]);
    let told = translate_rename(&folders, &event, &mut deduper(), at(0)).unwrap();
    assert_eq!(told.event_type, EventType::DirRenamed);

    let event = report(kind, vec![seen("/work/api/a.log", false), seen("/work/api/b.log", false)]);
    assert!(translate_rename(&folders, &event, &mut deduper(), at(0)).is_none());
    let event = report(kind, vec![seen("/work/api/a.log", false), seen("/work/api/b", false)]);
    assert!(translate_rename(&folders, &event, &mut deduper(), at(0)).is_some());
    let event = report(kind, vec![seen("/work/api/.git/a", false), seen("/work/api/b", false)]);
    assert!(translate_rename(&folders, &event, &mut deduper(), at(0)).is_none());
    let event = report(kind, vec![seen("/work/api/a", false)]);
    assert!(translate_rename(&folders, &event, &mut deduper(), at(0)).is_none());

    let event = report(kind, vec![seen("/work/api/a", false), seen("/work/api/b", false)]);
    let all = translate_event(&folders, &event, &mut Deduper::new(MILLI));
    assert_eq!(types(&all), vec![EventType::FileRenamed]);
}

#[test]
fn first_folder_that_holds_all_paths_counts() {
    let folders = vec![
        folder("/work/api/sub", false, ""),
        folder("/work/api", false, ""),
        folder("/work", false, ""),
    ];
    let a = path("/work/api/sub/x");
    let b = path("/work/api/y");
    assert_eq!(folder_for(&folders, &vec![&a]).unwrap().root().display(), "/work/api/sub");
    assert_eq!(folder_for(&folders, &vec![&a, &b]).unwrap().root().display(), "/work/api");
    assert!(folder_for(&folders, &vec![&path("/other")]).is_none());
}

#[test]
fn reports_decide_about_entries() {
    let create = |kind| EventKind::Create(kind);
    assert_eq!(worktree_entry_kind(create(CreateKind::Folder), false), Some(EntryKind::Dir));
    assert_eq!(worktree_entry_kind(create(CreateKind::File), true), Some(EntryKind::File));
    assert_eq!(worktree_entry_kind(create(CreateKind::Any), true), Some(EntryKind::Dir));
    assert_eq!(worktree_entry_kind(EventKind::Access, false), Some(EntryKind::File));
    assert_eq!(worktree_entry_kind(EventKind::Modify(ModifyKind::Name), false), None);
    assert_eq!(worktree_entry_kind(EventKind::Modify(ModifyKind::Other), false), None);
    assert_eq!(worktree_entry_kind(EventKind::Any, false), None);
    assert_eq!(worktree_entry_kind(EventKind::Other, false), None);

    let file = EntryKind::File;
    let removed = EventKind::Remove(RemoveKind::Any);
    assert_eq!(worktree_event_type(removed, file), Some(EventType::FileDeleted));
    assert_eq!(worktree_event_type(removed, EntryKind::Dir), Some(EventType::DirDeleted));
    assert_eq!(worktree_event_type(EventKind::Access, file), Some(EventType::FileModified));
    assert_eq!(worktree_event_type(EventKind::Modify(ModifyKind::Name), file), None);
    assert!(is_rename_event(EventKind::Modify(ModifyKind::Name)));
    assert!(!is_rename_event(EventKind::Modify(ModifyKind::Any)));
    assert_eq!(rename_entry_kind(true, false), EntryKind::Dir);
    assert_eq!(rename_entry_kind(false, false), EntryKind::File);
}

#[test]
fn git_files_have_their_types() {
    assert_eq!(git_event_type("HEAD"), EventType::GitHeadChanged);
    assert_eq!(git_event_type("index"), EventType::GitIndexChanged);
    assert_eq!(git_event_type("packed-refs"), EventType::GitPackedRefsChanged);
    assert_eq!(git_event_type("refs/heads/main"), EventType::GitRefsChanged);
    assert_eq!(git_event_type("refs"), EventType::GitChanged);
    assert_eq!(git_event_type("ORIG_HEAD"), EventType::GitChanged);
    assert_eq!(git_event_type(""), EventType::GitChanged);
}

fn key(event_type: EventType, rel: &str) -> DedupKey {
    DedupKey { folder: path("/work/api"), event_type, path: Some(path(rel)), git_path: None }
}

#[test]
fn duplicates_within_the_window_are_dropped() {
    let mut deduper = Deduper::new(150 * MILLI);
    let modified = EventType::FileModified;
    assert!(deduper.should_emit_at(key(modified, "a"), 0));
    assert!(!deduper.should_emit_at(key(modified, "a"), 150 * MILLI));
    assert!(!deduper.should_emit_at(key(modified, "a/"), 150 * MILLI));
    assert!(deduper.should_emit_at(key(modified, "b"), 150 * MILLI));
    assert!(deduper.should_emit_at(key(EventType::FileCreated, "a"), 150 * MILLI));
}

#[test]
fn dropped_duplicates_do_not_extend_the_window() {
    let mut deduper = Deduper::new(150 * MILLI);
    let modified = EventType::FileModified;
    assert!(deduper.should_emit_at(key(modified, "a"), 0));
    assert!(!deduper.should_emit_at(key(modified, "a"), 100 * MILLI));
    assert!(deduper.should_emit_at(key(modified, "b"), 120 * MILLI));
    assert!(!deduper.should_emit_at(key(modified, "a"), 150 * MILLI));
    assert!(!deduper.should_emit_at(key(modified, "b"), 150 * MILLI + 1));
    assert!(deduper.should_emit_at(key(modified, "a"), 150 * MILLI + 1));
}

#[test]
fn repeated_events_are_told_once() {
    let mut deduper = Deduper::new(3_600_000 * MILLI);
    let folders = vec![folder("/work/api", false, "")];
    let event = report(EventKind::Create(CreateKind::File), vec![seen("/work/api/a", false)]);
    assert_eq!(translate_event(&folders, &event, &mut deduper).len(), 1);
    assert_eq!(translate_event(&folders, &event, &mut deduper).len(), 0);
    assert!(!deduper.should_emit(key(EventType::FileCreated, "a")));
    assert!(deduper.should_emit(key(EventType::FileCreated, "b")));
}

#[test]
fn clock_goes_on() {
    let deduper = Deduper::new(MILLI);
    let first = deduper.clock().read();
    let second = deduper.clock().read();
    assert!(second.nanos >= first.nanos);
    assert!(first.unix_ms > 1_600_000_000_000);
    assert_eq!(since_epoch(None), 0);
    assert_eq!(since_epoch(Some(7)), 7);
    assert!(now_ms() > 1_600_000_000_000);
    let shown = Moment::shown(5, Some(7));
    assert_eq!((shown.nanos, shown.unix_ms), (5, 7));
    assert_eq!(Moment::shown(5, None).unix_ms, 0);
}
