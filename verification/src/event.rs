//! From what the file system reports to what subscribers are told.

use vstd::prelude::*;
use vstd::string::StringExecFns;

use crate::components::components;
use crate::dedup::option_components;
use crate::folder::{FolderView, MonitoredFolder};
use crate::fs_path::{is_under, FsPath};
use crate::protocol::EventType;
use crate::text::{concat, lossy_chars, same_text, text_starts_with};
use crate::views::{option_view, seq_view};

verus! {

/// What was created.
#[derive(Debug, Clone, Copy, PartialEq, Eq, Structural)]
pub enum CreateKind {
    Any,
    File,
    Folder,
    Other,
}

/// What was modified.
#[derive(Debug, Clone, Copy, PartialEq, Eq, Structural)]
pub enum ModifyKind {
    Any,
    Data,
    Metadata,
    Name,
    Other,
}

/// What was removed.
#[derive(Debug, Clone, Copy, PartialEq, Eq, Structural)]
pub enum RemoveKind {
    Any,
    File,
    Folder,
    Other,
}

/// What the file system reports to have happened.
#[derive(Debug, Clone, Copy, PartialEq, Eq, Structural)]
pub enum EventKind {
    Any,
    Access,
    Create(CreateKind),
    Modify(ModifyKind),
    Remove(RemoveKind),
    Other,
}

/// A path in a report, and whether a directory is there.
#[derive(Debug)]
pub struct SeenPath {
    pub path: FsPath,
    pub is_dir: bool,
}

/// The bytes of a path, and whether a directory is there.
pub struct SeenPathView {
    pub path: Seq<u8>,
    pub is_dir: bool,
}

impl View for SeenPath {
    type V = SeenPathView;

    open spec fn view(&self) -> SeenPathView {
        SeenPathView { path: self.path@, is_dir: self.is_dir }
    }
}

/// A report of the file system.
#[derive(Debug)]
pub struct FsEvent {
    pub kind: EventKind,
    pub paths: Vec<SeenPath>,
}

/// What a report says.
pub struct FsEventView {
    pub kind: EventKind,
    pub paths: Seq<SeenPathView>,
}

impl View for FsEvent {
    type V = FsEventView;

    open spec fn view(&self) -> FsEventView {
        FsEventView { kind: self.kind, paths: seq_view(self.paths@) }
    }
}

/// Whether an entry is a file or a directory.
#[derive(Debug, Clone, Copy, PartialEq, Eq, Structural)]
pub enum EntryKind {
    File,
    Dir,
}

/// The kind of an entry.
pub open spec fn entry_kind(is_dir: bool) -> EntryKind {
    if is_dir {
        EntryKind::Dir
    } else {
        EntryKind::File
    }
}

impl EntryKind {
    /// Whether the entry is a directory.
    pub fn is_dir(self) -> (yes: bool)
        ensures
            yes == (self is Dir),
    {
        matches!(self, EntryKind::Dir)
    }

    /// The event of the entry being created.
    pub fn created_event_type(self) -> (event_type: EventType)
        ensures
            self is File ==> event_type == EventType::FileCreated,
            self is Dir ==> event_type == EventType::DirCreated,
    {
        match self {
            EntryKind::File => EventType::FileCreated,
            EntryKind::Dir => EventType::DirCreated,
        }
    }

    /// The event of the entry being deleted.
    pub fn deleted_event_type(self) -> (event_type: EventType)
        ensures
            self is File ==> event_type == EventType::FileDeleted,
            self is Dir ==> event_type == EventType::DirDeleted,
    {
        match self {
            EntryKind::File => EventType::FileDeleted,
            EntryKind::Dir => EventType::DirDeleted,
        }
    }

    /// The event of the entry being modified.
    pub fn modified_event_type(self) -> (event_type: EventType)
        ensures
            self is File ==> event_type == EventType::FileModified,
            self is Dir ==> event_type == EventType::DirModified,
    {
        match self {
            EntryKind::File => EventType::FileModified,
            EntryKind::Dir => EventType::DirModified,
        }
    }
}

/// Whether the report is of content or metadata having changed, or of an access.
pub open spec fn is_change(kind: EventKind) -> bool {
    match kind {
        EventKind::Modify(what) => what is Any || what is Data || what is Metadata,
        EventKind::Access => true,
        _ => false,
    }
}

/// Whether the report is of a new name.
pub open spec fn is_rename(kind: EventKind) -> bool {
    kind == EventKind::Modify(ModifyKind::Name)
}

/// What kind of entry a report outside Git's data is about: the one it says, or the
/// one found on disk where it says none. Reports of other kinds are about none.
pub open spec fn reported_entry(kind: EventKind, is_dir: bool) -> Option<EntryKind> {
    match kind {
        EventKind::Create(CreateKind::Folder) | EventKind::Remove(RemoveKind::Folder) => Some(
            EntryKind::Dir,
        ),
        EventKind::Create(CreateKind::File) | EventKind::Remove(RemoveKind::File) => Some(
            EntryKind::File,
        ),
        EventKind::Create(_) | EventKind::Remove(_) => Some(entry_kind(is_dir)),
        _ => if is_change(kind) {
            Some(entry_kind(is_dir))
        } else {
            None
        },
    }
}

/// What subscribers are told of a report about such an entry.
pub open spec fn told_of(kind: EventKind, entry: EntryKind) -> Option<EventType> {
    match (kind, entry) {
        (EventKind::Create(_), EntryKind::File) => Some(EventType::FileCreated),
        (EventKind::Create(_), EntryKind::Dir) => Some(EventType::DirCreated),
        (EventKind::Remove(_), EntryKind::File) => Some(EventType::FileDeleted),
        (EventKind::Remove(_), EntryKind::Dir) => Some(EventType::DirDeleted),
        (_, EntryKind::File) => if is_change(kind) {
            Some(EventType::FileModified)
        } else {
            None
        },
        (_, EntryKind::Dir) => if is_change(kind) {
            Some(EventType::DirModified)
        } else {
            None
        },
    }
}

/// What subscribers are told of a file in Git's data.
pub open spec fn told_of_git(rel: Seq<char>) -> EventType {
    if rel == "HEAD"@ {
        EventType::GitHeadChanged
    } else if rel == "index"@ {
        EventType::GitIndexChanged
    } else if rel == "packed-refs"@ {
        EventType::GitPackedRefsChanged
    } else if "refs/"@.is_prefix_of(rel) {
        EventType::GitRefsChanged
    } else {
        EventType::GitChanged
    }
}

/// Whether the report is of a new name.
pub fn is_rename_event(kind: EventKind) -> (yes: bool)
    ensures
        yes == is_rename(kind),
{
    matches!(kind, EventKind::Modify(ModifyKind::Name))
}

/// The kind of the entry on disk.
pub fn entry_kind_from_path(is_dir: bool) -> (kind: EntryKind)
    ensures
        kind == entry_kind(is_dir),
{
    if is_dir {
        EntryKind::Dir
    } else {
        EntryKind::File
    }
}

/// The kind of an entry that got a new name: a directory where one is found under
/// either name.
pub fn rename_entry_kind(from_is_dir: bool, to_is_dir: bool) -> (kind: EntryKind)
    ensures
        kind == entry_kind(to_is_dir || from_is_dir),
{
    if to_is_dir || from_is_dir {
        EntryKind::Dir
    } else {
        EntryKind::File
    }
}

/// What kind of entry a report outside Git's data is about.
pub fn worktree_entry_kind(kind: EventKind, is_dir: bool) -> (entry: Option<EntryKind>)
    ensures
        entry == reported_entry(kind, is_dir),
        kind == EventKind::Create(CreateKind::Folder) || kind == EventKind::Remove(
            RemoveKind::Folder,
        ) ==> entry == Some(EntryKind::Dir),
        kind == EventKind::Create(CreateKind::File) || kind == EventKind::Remove(RemoveKind::File)
            ==> entry == Some(EntryKind::File),
        kind == EventKind::Access || kind == EventKind::Modify(ModifyKind::Any) || kind
            == EventKind::Modify(ModifyKind::Data) || kind == EventKind::Modify(
            ModifyKind::Metadata,
        ) || kind == EventKind::Create(CreateKind::Any) || kind == EventKind::Create(
            CreateKind::Other,
        ) || kind == EventKind::Remove(RemoveKind::Any) || kind == EventKind::Remove(
            RemoveKind::Other,
        ) ==> entry is Some && (entry->0 is Dir <==> is_dir),
        kind == EventKind::Any || kind == EventKind::Other || kind == EventKind::Modify(
            ModifyKind::Name,
        ) || kind == EventKind::Modify(ModifyKind::Other) ==> entry is None,
{
    match kind {
        EventKind::Create(CreateKind::Folder) | EventKind::Remove(RemoveKind::Folder) => Some(
            EntryKind::Dir,
        ),
        EventKind::Create(CreateKind::File) | EventKind::Remove(RemoveKind::File) => Some(
            EntryKind::File,
        ),
        EventKind::Create(_)
        | EventKind::Modify(ModifyKind::Data)
        | EventKind::Modify(ModifyKind::Metadata)
        | EventKind::Modify(ModifyKind::Any)
        | EventKind::Access
        | EventKind::Remove(_) => Some(entry_kind_from_path(is_dir)),
        _ => None,
    }
}

/// What subscribers are told of a report about such an entry.
pub fn worktree_event_type(kind: EventKind, entry: EntryKind) -> (event_type: Option<EventType>)
    ensures
        event_type == told_of(kind, entry),
        kind is Create && entry is Dir ==> event_type == Some(EventType::DirCreated),
        kind is Create && entry is File ==> event_type == Some(EventType::FileCreated),
        kind is Remove && entry is Dir ==> event_type == Some(EventType::DirDeleted),
        kind is Remove && entry is File ==> event_type == Some(EventType::FileDeleted),
        (kind is Access || kind == EventKind::Modify(ModifyKind::Any) || kind
            == EventKind::Modify(ModifyKind::Data) || kind == EventKind::Modify(
            ModifyKind::Metadata,
        )) && entry is Dir ==> event_type == Some(EventType::DirModified),
        (kind is Access || kind == EventKind::Modify(ModifyKind::Any) || kind
            == EventKind::Modify(ModifyKind::Data) || kind == EventKind::Modify(
            ModifyKind::Metadata,
        )) && entry is File ==> event_type == Some(EventType::FileModified),
        kind is Any || kind is Other || kind == EventKind::Modify(ModifyKind::Name) || kind
            == EventKind::Modify(ModifyKind::Other) ==> event_type is None,
{
    match kind {
        EventKind::Create(_) => Some(entry.created_event_type()),
        EventKind::Modify(ModifyKind::Data)
        | EventKind::Modify(ModifyKind::Metadata)
        | EventKind::Modify(ModifyKind::Any)
        | EventKind::Access => Some(entry.modified_event_type()),
        EventKind::Remove(_) => Some(entry.deleted_event_type()),
        _ => None,
    }
}

/// What subscribers are told of a file in Git's data.
pub fn git_event_type(rel: &str) -> (event_type: EventType)
    ensures
        event_type == told_of_git(rel@),
{
    if same_text(rel, "HEAD") {
        EventType::GitHeadChanged
    } else if same_text(rel, "index") {
        EventType::GitIndexChanged
    } else if same_text(rel, "packed-refs") {
        EventType::GitPackedRefsChanged
    } else if text_starts_with(rel, "refs/") {
        EventType::GitRefsChanged
    } else {
        EventType::GitChanged
    }
}

/// An event that is told unless it was told just now.
#[derive(Debug)]
pub struct PendingEvent {
    pub event_type: EventType,
    pub path: Option<String>,
    pub git_path: Option<String>,
    pub dedup_path: Option<FsPath>,
    pub dedup_git_path: Option<String>,
}

/// A pending event: what it says, and what it is the same by.
pub struct PendingView {
    pub event_type: EventType,
    pub path: Option<Seq<char>>,
    pub git_path: Option<Seq<char>>,
    pub dedup_path: Option<Seq<Seq<u8>>>,
    pub dedup_git_path: Option<Seq<char>>,
}

impl View for PendingEvent {
    type V = PendingView;

    open spec fn view(&self) -> PendingView {
        PendingView {
            event_type: self.event_type,
            path: option_view(self.path),
            git_path: option_view(self.git_path),
            dedup_path: option_components(self.dedup_path),
            dedup_git_path: option_view(self.dedup_git_path),
        }
    }
}

/// An event about a path in the folder.
pub open spec fn worktree_pending(event_type: EventType, rel: Seq<u8>) -> PendingView {
    PendingView {
        event_type,
        path: Some(lossy_chars(rel)),
        git_path: None,
        dedup_path: Some(components(rel)),
        dedup_git_path: None,
    }
}

/// An event about a path in the folder that got a new name.
pub open spec fn rename_pending(event_type: EventType, from: Seq<u8>, to: Seq<u8>) -> PendingView {
    PendingView {
        event_type,
        path: Some(lossy_chars(from) + " -> "@ + lossy_chars(to)),
        git_path: None,
        dedup_path: Some(components(to)),
        dedup_git_path: None,
    }
}

/// An event about a path in Git's data.
pub open spec fn git_pending(event_type: EventType, rel: Seq<char>) -> PendingView {
    PendingView {
        event_type,
        path: None,
        git_path: Some(rel),
        dedup_path: None,
        dedup_git_path: Some(rel),
    }
}

impl PendingEvent {
    /// An event about a path in the folder.
    pub fn worktree(event_type: EventType, rel: &FsPath) -> (event: PendingEvent)
        ensures
            event@ == worktree_pending(event_type, rel@),
    {
        PendingEvent {
            event_type,
            path: Some(rel.display()),
            git_path: None,
            dedup_path: Some(rel.clone()),
            dedup_git_path: None,
        }
    }

    /// An event about a path in the folder that got a new name.
    pub fn rename(event_type: EventType, from: &FsPath, to: &FsPath) -> (event: PendingEvent)
        ensures
            event@ == rename_pending(event_type, from@, to@),
    {
        let mut path = concat(from.display().as_str(), " -> ");
        path.append(to.display().as_str());
        PendingEvent {
            event_type,
            path: Some(path),
            git_path: None,
            dedup_path: Some(to.clone()),
            dedup_git_path: None,
        }
    }

    /// An event about a path in Git's data.
    pub fn git(event_type: EventType, rel: String) -> (event: PendingEvent)
        ensures
            event@ == git_pending(event_type, rel@),
    {
        PendingEvent {
            event_type,
            path: None,
            git_path: Some(rel.clone()),
            dedup_path: None,
            dedup_git_path: Some(rel),
        }
    }
}

/// The first folder that all the paths lie in.
pub open spec fn first_holding(folders: Seq<FolderView>, paths: Seq<Seq<u8>>) -> Option<FolderView>
    decreases folders.len(),
{
    if folders.len() == 0 {
        None
    } else if forall|i: int| 0 <= i < paths.len() ==> is_under(#[trigger] paths[i], folders[0].root) {
        Some(folders[0])
    } else {
        first_holding(folders.skip(1), paths)
    }
}

/// Whether all the paths lie in the folder.
fn holds_all(folder: &MonitoredFolder, paths: &Vec<&FsPath>) -> (yes: bool)
    ensures
        yes == forall|i: int|
            0 <= i < paths@.len() ==> is_under(#[trigger] seq_view(paths@)[i], folder@.root),
{
    let mut i: usize = 0;
    while i < paths.len()
        invariant
            i <= paths@.len(),
            forall|k: int|
                0 <= k < i ==> is_under(#[trigger] seq_view(paths@)[k], folder@.root),
        decreases paths@.len() - i,
    {
        assert(seq_view(paths@)[i as int] == paths@[i as int]@);
        if !paths[i].starts_with(folder.root()) {
            return false;
        }
        i += 1;
    }
    true
}

/// The first folder that all the paths lie in.
pub fn folder_for<'a>(folders: &'a Vec<MonitoredFolder>, paths: &Vec<&FsPath>) -> (found: Option<
    &'a MonitoredFolder,
>)
    ensures
        option_view(found) == first_holding(seq_view(folders@), seq_view(paths@)),
{
    let ghost all = seq_view(folders@);
    let mut i: usize = 0;
    assert(all.skip(0) =~= all);
    while i < folders.len()
        invariant
            i <= folders@.len(),
            all == seq_view(folders@),
            first_holding(all, seq_view(paths@)) == first_holding(
                all.skip(i as int),
                seq_view(paths@),
            ),
        decreases folders@.len() - i,
    {
        assert(all.skip(i as int)[0] == folders@[i as int]@);
        if holds_all(&folders[i], paths) {
            return Some(&folders[i]);
        }
        assert(all.skip(i as int).skip(1) =~= all.skip(i + 1));
        i += 1;
    }
    None
}

/// Every creation is told as a creation, every removal as a deletion, and every change of
/// content or metadata and every access as a modification, of a directory or of a file as
/// the entry is. Nothing is told of other reports.
pub proof fn law_reports_are_told_as_what_they_are(
    created: CreateKind,
    removed: RemoveKind,
    modified: ModifyKind,
)
    ensures
        told_of(EventKind::Create(created), EntryKind::Dir) == Some(EventType::DirCreated),
        told_of(EventKind::Create(created), EntryKind::File) == Some(EventType::FileCreated),
        told_of(EventKind::Remove(removed), EntryKind::Dir) == Some(EventType::DirDeleted),
        told_of(EventKind::Remove(removed), EntryKind::File) == Some(EventType::FileDeleted),
        told_of(EventKind::Access, EntryKind::Dir) == Some(EventType::DirModified),
        told_of(EventKind::Access, EntryKind::File) == Some(EventType::FileModified),
        modified is Any || modified is Data || modified is Metadata ==> told_of(
            EventKind::Modify(modified),
            EntryKind::Dir,
        ) == Some(EventType::DirModified) && told_of(EventKind::Modify(modified), EntryKind::File)
            == Some(EventType::FileModified),
        modified is Name || modified is Other ==> told_of(
            EventKind::Modify(modified),
            EntryKind::Dir,
        ) is None && told_of(EventKind::Modify(modified), EntryKind::File) is None,
        told_of(EventKind::Any, EntryKind::Dir) is None,
        told_of(EventKind::Any, EntryKind::File) is None,
        told_of(EventKind::Other, EntryKind::Dir) is None,
        told_of(EventKind::Other, EntryKind::File) is None,
{
}

/// A report that says whether a file or a folder was created or removed is believed; of
/// any other the disk decides.
pub proof fn law_reports_say_what_entries_are(is_dir: bool, modified: ModifyKind)
    ensures
        reported_entry(EventKind::Create(CreateKind::Folder), is_dir) == Some(EntryKind::Dir),
        reported_entry(EventKind::Remove(RemoveKind::Folder), is_dir) == Some(EntryKind::Dir),
        reported_entry(EventKind::Create(CreateKind::File), is_dir) == Some(EntryKind::File),
        reported_entry(EventKind::Remove(RemoveKind::File), is_dir) == Some(EntryKind::File),
        reported_entry(EventKind::Create(CreateKind::Any), true) == Some(EntryKind::Dir),
        reported_entry(EventKind::Create(CreateKind::Any), false) == Some(EntryKind::File),
        reported_entry(EventKind::Create(CreateKind::Other), true) == Some(EntryKind::Dir),
        reported_entry(EventKind::Create(CreateKind::Other), false) == Some(EntryKind::File),
        reported_entry(EventKind::Remove(RemoveKind::Any), true) == Some(EntryKind::Dir),
        reported_entry(EventKind::Remove(RemoveKind::Any), false) == Some(EntryKind::File),
        reported_entry(EventKind::Remove(RemoveKind::Other), true) == Some(EntryKind::Dir),
        reported_entry(EventKind::Remove(RemoveKind::Other), false) == Some(EntryKind::File),
        reported_entry(EventKind::Access, true) == Some(EntryKind::Dir),
        reported_entry(EventKind::Access, false) == Some(EntryKind::File),
        modified is Any || modified is Data || modified is Metadata ==> reported_entry(
            EventKind::Modify(modified),
            true,
        ) == Some(EntryKind::Dir) && reported_entry(EventKind::Modify(modified), false) == Some(
            EntryKind::File,
        ),
        modified is Name || modified is Other ==> reported_entry(
            EventKind::Modify(modified),
            is_dir,
        ) is None,
        reported_entry(EventKind::Any, is_dir) is None,
        reported_entry(EventKind::Other, is_dir) is None,
        is_rename(EventKind::Modify(modified)) <==> modified is Name,
        entry_kind(true) is Dir,
        entry_kind(false) is File,
{
}

/// A report of a new name is none of anything else.
pub proof fn law_only_new_names_are_renames(kind: EventKind)
    ensures
        is_rename(kind) <==> kind == EventKind::Modify(ModifyKind::Name),
{
}

/// Each file in Git's data has the type that belongs to it, and no other file has.
pub proof fn law_git_files_have_their_types(rel: Seq<char>)
    ensures
        told_of_git(rel) == EventType::GitHeadChanged <==> rel == "HEAD"@,
        told_of_git(rel) == EventType::GitIndexChanged <==> rel == "index"@,
        told_of_git(rel) == EventType::GitPackedRefsChanged <==> rel == "packed-refs"@,
        told_of_git(rel) == EventType::GitRefsChanged <==> rel.len() >= 5 && rel.take(5)
            == "refs/"@,
        told_of_git(rel).is_git(),
{
    reveal_strlit("HEAD");
    reveal_strlit("index");
    reveal_strlit("packed-refs");
    reveal_strlit("refs/");
    assert("HEAD"@.len() == 4 && "index"@.len() == 5 && "packed-refs"@.len() == 11);
    assert("refs/"@.len() == 5);
    assert("index"@[0] == 'i' && "packed-refs"@[0] == 'p' && "refs/"@[0] == 'r');
    if rel.len() >= 5 {
        assert(rel.take(5) =~= rel.subrange(0, 5));
        assert(rel.take(5)[0] == rel[0]);
    }
}

/// The types of events about Git's data are these five.
pub proof fn law_git_events_are_these(event_type: EventType)
    ensures
        event_type.is_git() <==> (event_type == EventType::GitHeadChanged || event_type
            == EventType::GitIndexChanged || event_type == EventType::GitRefsChanged || event_type
            == EventType::GitPackedRefsChanged || event_type == EventType::GitChanged),
{
}

/// The folder that paths belong to holds all of them, and none before it does; there is
/// none where no folder holds all.
pub proof fn law_first_folder_counts(folders: Seq<FolderView>, paths: Seq<Seq<u8>>, k: int)
    requires
        0 <= k <= folders.len(),
        forall|j: int|
            0 <= j < k ==> exists|i: int|
                0 <= i < paths.len() && !is_under(#[trigger] paths[i], (#[trigger] folders[j]).root),
        k < folders.len() ==> forall|i: int|
            0 <= i < paths.len() ==> is_under(#[trigger] paths[i], folders[k].root),
    ensures
        k < folders.len() ==> first_holding(folders, paths) == Some(folders[k]),
        k == folders.len() ==> first_holding(folders, paths) is None,
    decreases folders.len(),
{
    if k > 0 {
        let rest = folders.skip(1);
        assert(exists|i: int|
            0 <= i < paths.len() && !is_under(#[trigger] paths[i], folders[0].root));
        assert forall|j: int| 0 <= j < k - 1 implies exists|i: int|
            0 <= i < paths.len() && !is_under(#[trigger] paths[i], (#[trigger] rest[j]).root) by {
            assert(rest[j] == folders[j + 1]);
        }
        law_first_folder_counts(rest, paths, k - 1);
    }
}

/// What pending events say, and by what they are the same as others.
pub proof fn law_pending_events_say_what_changed(
    event_type: EventType,
    from: Seq<u8>,
    to: Seq<u8>,
    text: Seq<char>,
    event: PendingEvent,
)
    ensures
        worktree_pending(event_type, to).event_type == event_type,
        worktree_pending(event_type, to).path == Some(lossy_chars(to)),
        worktree_pending(event_type, to).git_path is None,
        worktree_pending(event_type, to).dedup_path == Some(components(to)),
        worktree_pending(event_type, to).dedup_git_path is None,
        rename_pending(event_type, from, to).event_type == event_type,
        rename_pending(event_type, from, to).path == Some(
            lossy_chars(from) + " -> "@ + lossy_chars(to),
        ),
        rename_pending(event_type, from, to).git_path is None,
        rename_pending(event_type, from, to).dedup_path == Some(components(to)),
        rename_pending(event_type, from, to).dedup_git_path is None,
        git_pending(event_type, text).event_type == event_type,
        git_pending(event_type, text).path is None,
        git_pending(event_type, text).git_path == Some(text),
        git_pending(event_type, text).dedup_path is None,
        git_pending(event_type, text).dedup_git_path == Some(text),
        event@.event_type == event.event_type,
        event.path matches Some(path) ==> event@.path == Some(path@),
        event.path is None ==> event@.path is None,
        event.git_path matches Some(path) ==> event@.git_path == Some(path@),
        event.git_path is None ==> event@.git_path is None,
        event.dedup_path matches Some(path) ==> event@.dedup_path == Some(components(path@)),
        event.dedup_path is None ==> event@.dedup_path is None,
        event.dedup_git_path matches Some(path) ==> event@.dedup_git_path == Some(path@),
        event.dedup_git_path is None ==> event@.dedup_git_path is None,
{
}

/// A report is seen with its kind and all its paths, in order.
pub proof fn law_reports_are_seen_whole(event: FsEvent, i: int)
    requires
        0 <= i < event.paths@.len(),
    ensures
        event@.kind == event.kind,
        event@.paths.len() == event.paths@.len(),
        event@.paths[i].path == event.paths@[i].path@,
        event@.paths[i].is_dir == event.paths@[i].is_dir,
{
}

} // verus!
