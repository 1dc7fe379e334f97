//! The translation of a report into the events that subscribers are told.

use vstd::prelude::*;

use crate::clock::Moment;
use crate::components::{
    components, is_absolute, lemma_from_component, lemma_piece_end_unique, lemma_spans, spans, DOT,
    SLASH,
};
use crate::dedup::{
    law_duplicates_within_window_are_dropped, law_only_what_is_let_through_is_remembered,
    law_recent_keys_are_dropped, law_stale_keys_are_let_through, DedupKey, DedupKeyView, Deduper,
    DeduperView,
};
use crate::event::{
    first_holding, folder_for, git_event_type, git_pending, is_rename, is_rename_event,
    rename_entry_kind, rename_pending, reported_entry, told_of, told_of_git, worktree_entry_kind,
    worktree_event_type, worktree_pending, EntryKind, EventKind, FsEvent, FsEventView, ModifyKind,
    PendingEvent, PendingView, SeenPath, SeenPathView,
};
use crate::folder::{FolderView, MonitoredFolder};
use crate::fs_path::{is_under, law_strip_then_join, stripped, FsPath};
use crate::ignore_rules::{lemma_matchable, matched_part};
use crate::protocol::{EventType, WireEvent, WireEventView};
use crate::text::{forward_slashes, lossy_chars, with_forward_slashes};
use crate::views::{option_view, seq_view};

verus! {

/// What is told of a path in Git's data, given in bytes relative to it.
pub open spec fn git_path_text(rel: Seq<u8>) -> Seq<char> {
    forward_slashes(lossy_chars(rel))
}

/// What a report says about a path in Git's data: that it was created, modified or
/// removed. Of other reports nothing is told.
pub open spec fn git_change(folder: FolderView, path: Seq<u8>, kind: EventKind) -> Option<
    PendingView,
> {
    if folder.holds_git_path(path) && (kind is Modify || kind is Create || kind is Remove) {
        let text = git_path_text(stripped(path, folder.git->0.git_dir)->0);
        Some(git_pending(told_of_git(text), text))
    } else {
        None
    }
}

/// What a report says about a path in the folder, outside Git's data. Of an ignored
/// path nothing is told.
pub open spec fn worktree_change(folder: FolderView, seen: SeenPathView, kind: EventKind) -> Option<
    PendingView,
> {
    match (stripped(seen.path, folder.root), reported_entry(kind, seen.is_dir)) {
        (Some(rel), Some(entry)) => match told_of(kind, entry) {
            Some(event_type) => if folder.ignores(rel, entry is Dir) {
                None
            } else {
                Some(worktree_pending(event_type, rel))
            },
            None => None,
        },
        _ => None,
    }
}

/// What a report says about an entry of the folder that got a new name. Nothing is
/// told where both names are ignored.
pub open spec fn rename_change(folder: FolderView, from: SeenPathView, to: SeenPathView) -> Option<
    PendingView,
> {
    let is_dir = to.is_dir || from.is_dir;
    let event_type = if is_dir {
        EventType::DirRenamed
    } else {
        EventType::FileRenamed
    };
    match (stripped(from.path, folder.root), stripped(to.path, folder.root)) {
        (Some(rel_from), Some(rel_to)) => if folder.ignores(rel_from, is_dir) && folder.ignores(
            rel_to,
            is_dir,
        ) {
            None
        } else {
            Some(rename_pending(event_type, rel_from, rel_to))
        },
        _ => None,
    }
}

/// The folder that a path belongs to, and what is to be told of it.
pub open spec fn path_change(
    folders: Seq<FolderView>,
    seen: SeenPathView,
    kind: EventKind,
) -> Option<(FolderView, PendingView)> {
    match first_holding(folders, seq![seen.path]) {
        None => None,
        Some(folder) => {
            let change = if folder.holds_git_path(seen.path) {
                git_change(folder, seen.path, kind)
            } else {
                worktree_change(folder, seen, kind)
            };
            match change {
                Some(pending) => Some((folder, pending)),
                None => None,
            }
        },
    }
}

/// The folder that both names of an entry belong to, and what is to be told of its
/// getting a new one: nothing where either lies in Git's data.
pub open spec fn name_change(folders: Seq<FolderView>, event: FsEventView) -> Option<
    (FolderView, PendingView),
> {
    if is_rename(event.kind) && event.paths.len() >= 2 {
        let from = event.paths[0];
        let to = event.paths[1];
        match first_holding(folders, seq![from.path, to.path]) {
            Some(folder) => if folder.holds_git_path(from.path) || folder.holds_git_path(to.path) {
                None
            } else {
                match rename_change(folder, from, to) {
                    Some(pending) => Some((folder, pending)),
                    None => None,
                }
            },
            None => None,
        }
    } else {
        None
    }
}

/// What is to be told in step `step` of the translation: of each path in turn, and
/// in the last step of the new name.
pub open spec fn change_in_step(
    folders: Seq<FolderView>,
    event: FsEventView,
    step: int,
) -> Option<(FolderView, PendingView)> {
    if 0 <= step < event.paths.len() {
        path_change(folders, event.paths[step], event.kind)
    } else {
        name_change(folders, event)
    }
}

/// What makes a pending event the same as another one.
pub open spec fn key_of(folder: FolderView, pending: PendingView) -> DedupKeyView {
    DedupKeyView {
        folder: components(folder.root),
        event_type: pending.event_type,
        path: pending.dedup_path,
        git_path: pending.dedup_git_path,
    }
}

/// A pending event as it is told.
pub open spec fn told(folder: FolderView, pending: PendingView, at: Moment) -> WireEventView {
    WireEventView {
        folder: lossy_chars(folder.root),
        event_type: pending.event_type,
        path: pending.path,
        git_path: pending.git_path,
        ts_unix_ms: at.unix_ms,
    }
}

/// What is told of a change, if anything, and what the deduper knows afterwards.
pub open spec fn deduped(
    change: Option<(FolderView, PendingView)>,
    deduper: DeduperView,
    at: Moment,
) -> (Option<WireEventView>, DeduperView) {
    match change {
        None => (None, deduper),
        Some((folder, pending)) => {
            let key = key_of(folder, pending);
            let event = if deduper.emits(key, at.nanos) {
                Some(told(folder, pending, at))
            } else {
                None
            };
            (event, deduper.after(key, at.nanos))
        },
    }
}

/// What is told in the first `steps` steps of the translation, step `k` being made
/// at `moments[k]`, and what the deduper knows afterwards.
pub open spec fn translated(
    folders: Seq<FolderView>,
    event: FsEventView,
    moments: Seq<Moment>,
    steps: nat,
    deduper: DeduperView,
) -> (Seq<WireEventView>, DeduperView)
    decreases steps,
{
    if steps == 0 {
        (Seq::empty(), deduper)
    } else {
        let step = steps - 1;
        let (events, before) = translated(folders, event, moments, step as nat, deduper);
        let (event, after) = deduped(
            change_in_step(folders, event, step),
            before,
            moments[step],
        );
        match event {
            Some(e) => (events.push(e), after),
            None => (events, after),
        }
    }
}

/// What is left of a path behind a folder's root can be asked for in its ignore
/// rules.
proof fn lemma_rest_is_matchable(root: Seq<u8>, path: Seq<u8>)
    requires
        is_absolute(root),
        is_under(path, root),
    ensures
        !is_absolute(matched_part(root, stripped(path, root)->0)),
{
    let k = components(root).len() as int;
    let rest = stripped(path, root)->0;
    lemma_spans(root);
    lemma_spans(path);
    lemma_from_component(path, k);
    if seq![DOT, SLASH].is_prefix_of(rest) {
        assert(rest.subrange(0, 2)[0] == DOT && rest.subrange(0, 2)[1] == SLASH);
        lemma_piece_end_unique(rest, 0, 1);
        assert(spans(rest)[0] == (0int, 1int));
        assert(components(rest)[0] =~= seq![DOT]);
    }
    lemma_matchable(root, rest);
}

/// Tells a pending event unless the same was told just now.
pub fn emit_deduped_event(
    folder: &MonitoredFolder,
    event: PendingEvent,
    deduper: &mut Deduper,
    at: Moment,
) -> (told_event: Option<WireEvent>)
    ensures
        (option_view(told_event), final(deduper)@) == deduped(
            Some((folder@, event@)),
            old(deduper)@,
            at,
        ),
        final(deduper).goes_by() == old(deduper).goes_by(),
{
    let key = DedupKey {
        folder: folder.root().clone(),
        event_type: event.event_type,
        path: event.dedup_path,
        git_path: event.dedup_git_path,
    };
    assert(key@ == key_of(folder@, event@));
    if !deduper.should_emit_at(key, at.nanos) {
        return None;
    }
    Some(
        WireEvent {
            folder: folder.root().display(),
            event_type: event.event_type,
            path: event.path,
            git_path: event.git_path,
            ts_unix_ms: at.unix_ms,
        },
    )
}

/// What a report says about a path in Git's data.
pub fn translate_git_event(folder: &MonitoredFolder, path: &FsPath, kind: EventKind) -> (pending:
    Option<PendingEvent>)
    ensures
        option_view(pending) == git_change(folder@, path@, kind),
{
    let rel = match folder.git_dir() {
        Some(git_dir) => match path.strip_prefix(git_dir) {
            Some(rel) => rel,
            None => return None,
        },
        None => return None,
    };
    let text = with_forward_slashes(rel.display().as_str());
    let event_type = git_event_type(text.as_str());
    match kind {
        EventKind::Modify(_) | EventKind::Create(_) | EventKind::Remove(_) => Some(
            PendingEvent::git(event_type, text),
        ),
        _ => None,
    }
}

/// What a report says about a path in the folder, outside Git's data.
pub fn translate_folder_event(folder: &MonitoredFolder, seen: &SeenPath, kind: EventKind) -> (pending:
    Option<PendingEvent>)
    ensures
        option_view(pending) == worktree_change(folder@, seen@, kind),
{
    let rel = match seen.path.strip_prefix(folder.root()) {
        Some(rel) => rel,
        None => return None,
    };
    let entry = match worktree_entry_kind(kind, seen.is_dir) {
        Some(entry) => entry,
        None => return None,
    };
    proof {
        lemma_rest_is_matchable(folder@.root, seen.path@);
    }
    if folder.is_worktree_ignored(&rel, entry.is_dir()) {
        return None;
    }
    match worktree_event_type(kind, entry) {
        Some(event_type) => Some(PendingEvent::worktree(event_type, &rel)),
        None => None,
    }
}

/// What a report says about an entry of the folder that got a new name.
pub fn emit_rename_event(folder: &MonitoredFolder, from: &SeenPath, to: &SeenPath) -> (pending:
    Option<PendingEvent>)
    ensures
        option_view(pending) == rename_change(folder@, from@, to@),
{
    let rel_from = match from.path.strip_prefix(folder.root()) {
        Some(rel) => rel,
        None => return None,
    };
    let rel_to = match to.path.strip_prefix(folder.root()) {
        Some(rel) => rel,
        None => return None,
    };
    let entry = rename_entry_kind(from.is_dir, to.is_dir);
    proof {
        lemma_rest_is_matchable(folder@.root, from.path@);
        lemma_rest_is_matchable(folder@.root, to.path@);
    }
    if folder.is_worktree_ignored(&rel_from, entry.is_dir()) && folder.is_worktree_ignored(
        &rel_to,
        entry.is_dir(),
    ) {
        return None;
    }
    let event_type = match entry {
        EntryKind::Dir => EventType::DirRenamed,
        EntryKind::File => EventType::FileRenamed,
    };
    Some(PendingEvent::rename(event_type, &rel_from, &rel_to))
}

/// The first folder that holds all paths holds each of them.
proof fn lemma_first_holding(folders: Seq<FolderView>, paths: Seq<Seq<u8>>)
    requires
        first_holding(folders, paths) is Some,
    ensures
        folders.contains(first_holding(folders, paths)->0),
        forall|i: int|
            0 <= i < paths.len() ==> is_under(
                #[trigger] paths[i],
                first_holding(folders, paths)->0.root,
            ),
    decreases folders.len(),
{
    if folders.len() > 0 {
        if first_holding(folders, paths) == Some(folders[0]) && forall|i: int|
            0 <= i < paths.len() ==> is_under(#[trigger] paths[i], folders[0].root) {
            assert(folders.contains(folders[0]));
        } else {
            lemma_first_holding(folders.skip(1), paths);
            let found = first_holding(folders.skip(1), paths)->0;
            let k = choose|k: int| 0 <= k < folders.skip(1).len() && folders.skip(1)[k] == found;
            assert(folders[k + 1] == found);
        }
    }
}

/// Tells what a report says about one of its paths.
pub fn translate_path_event(
    folders: &Vec<MonitoredFolder>,
    seen: &SeenPath,
    kind: EventKind,
    deduper: &mut Deduper,
    at: Moment,
) -> (event: Option<WireEvent>)
    ensures
        (option_view(event), final(deduper)@) == deduped(
            path_change(seq_view(folders@), seen@, kind),
            old(deduper)@,
            at,
        ),
        final(deduper).goes_by() == old(deduper).goes_by(),
{
    let paths = vec![&seen.path];
    assert(seq_view(paths@) =~= seq![seen@.path]);
    let folder = match folder_for(folders, &paths) {
        Some(folder) => folder,
        None => return None,
    };
    let pending = if folder.is_inside_git_dir(&seen.path) {
        translate_git_event(folder, &seen.path, kind)
    } else {
        translate_folder_event(folder, seen, kind)
    };
    match pending {
        Some(pending) => emit_deduped_event(folder, pending, deduper, at),
        None => None,
    }
}

/// Tells what a report says about an entry that got a new name.
pub fn translate_rename(
    folders: &Vec<MonitoredFolder>,
    event: &FsEvent,
    deduper: &mut Deduper,
    at: Moment,
) -> (told_event: Option<WireEvent>)
    ensures
        (option_view(told_event), final(deduper)@) == deduped(
            name_change(seq_view(folders@), event@),
            old(deduper)@,
            at,
        ),
        final(deduper).goes_by() == old(deduper).goes_by(),
{
    if !is_rename_event(event.kind) || event.paths.len() < 2 {
        return None;
    }
    let from = &event.paths[0];
    let to = &event.paths[1];
    assert(event@.paths[0] == from@ && event@.paths[1] == to@);
    let paths = vec![&from.path, &to.path];
    assert(seq_view(paths@) =~= seq![from@.path, to@.path]);
    let folder = match folder_for(folders, &paths) {
        Some(folder) => folder,
        None => return None,
    };
    if folder.is_inside_git_dir(&from.path) || folder.is_inside_git_dir(&to.path) {
        return None;
    }
    match emit_rename_event(folder, from, to) {
        Some(pending) => emit_deduped_event(folder, pending, deduper, at),
        None => None,
    }
}

/// Tells what a report says about each of its paths, and then about a new name,
/// reading the clock anew for each.
pub fn translate_event(folders: &Vec<MonitoredFolder>, event: &FsEvent, deduper: &mut Deduper) -> (events:
    Vec<WireEvent>)
    ensures
        exists|moments: Seq<Moment>|
            moments.len() == event@.paths.len() + 1 && (seq_view(events@), final(deduper)@)
                == #[trigger] translated(
                seq_view(folders@),
                event@,
                moments,
                moments.len(),
                old(deduper)@,
            ),
        final(deduper).goes_by() == old(deduper).goes_by(),
{
    let ghost start = deduper@;
    let ghost all = seq_view(folders@);
    let mut events: Vec<WireEvent> = Vec::new();
    let ghost mut moments: Seq<Moment> = Seq::empty();
    let mut i: usize = 0;
    assert(seq_view(events@) =~= Seq::empty());
    while i < event.paths.len()
        invariant
            i <= event.paths@.len(),
            all == seq_view(folders@),
            moments.len() == i,
            (seq_view(events@), deduper@) == translated(all, event@, moments, i as nat, start),
            deduper.goes_by() == old(deduper).goes_by(),
        decreases event.paths@.len() - i,
    {
        let at = deduper.clock().read();
        let ghost before = events@;
        let ghost earlier = moments;
        assert(event@.paths[i as int] == event.paths@[i as int]@);
        let told_event = translate_path_event(folders, &event.paths[i], event.kind, deduper, at);
        proof {
            moments = moments.push(at);
            lemma_translated_prefix(all, event@, earlier, moments, i as nat, start);
        }
        if let Some(e) = told_event {
            events.push(e);
            assert(seq_view(events@) =~= seq_view(before).push(e@));
        }
        i += 1;
    }
    let at = deduper.clock().read();
    let ghost before = events@;
    let ghost earlier = moments;
    let told_event = translate_rename(folders, event, deduper, at);
    proof {
        moments = moments.push(at);
        lemma_translated_prefix(all, event@, earlier, moments, i as nat, start);
    }
    if let Some(e) = told_event {
        events.push(e);
        assert(seq_view(events@) =~= seq_view(before).push(e@));
    }
    assert((seq_view(events@), deduper@) == translated(
        all,
        event@,
        moments,
        moments.len(),
        start,
    ));
    events
}

/// The first steps depend on the moments of those steps only.
proof fn lemma_translated_prefix(
    folders: Seq<FolderView>,
    event: FsEventView,
    a: Seq<Moment>,
    b: Seq<Moment>,
    steps: nat,
    deduper: DeduperView,
)
    requires
        steps <= a.len(),
        steps <= b.len(),
        forall|k: int| 0 <= k < steps ==> a[k] == b[k],
    ensures
        translated(folders, event, a, steps, deduper) == translated(
            folders,
            event,
            b,
            steps,
            deduper,
        ),
    decreases steps,
{
    if steps > 0 {
        lemma_translated_prefix(folders, event, a, b, (steps - 1) as nat, deduper);
    }
}

/// Whether an event says where it happened as it should: an event in Git's data by
/// `git_path` alone, any other by `path` alone; and whether it names the folder.
pub open spec fn is_well_told(folders: Seq<FolderView>, event: WireEventView) -> bool {
    &&& event.event_type.is_git() <==> event.git_path is Some
    &&& event.path is Some <==> event.git_path is None
    &&& exists|i: int|
        0 <= i < folders.len() && event.folder == lossy_chars((#[trigger] folders[i]).root)
}

/// Every event that is told is about a watched folder; it has a `git_path` and no
/// `path` where it is about Git's data, and a `path` and no `git_path` otherwise.
/// No more events are told than steps are made.
pub proof fn law_events_are_well_told(
    folders: Seq<FolderView>,
    event: FsEventView,
    moments: Seq<Moment>,
    steps: nat,
    deduper: DeduperView,
)
    ensures
        translated(folders, event, moments, steps, deduper).0.len() <= steps,
        forall|i: int|
            0 <= i < translated(folders, event, moments, steps, deduper).0.len() ==> is_well_told(
                folders,
                #[trigger] translated(folders, event, moments, steps, deduper).0[i],
            ),
    decreases steps,
{
    if steps > 0 {
        let step = steps - 1;
        law_events_are_well_told(folders, event, moments, step as nat, deduper);
        let (events, before) = translated(folders, event, moments, step as nat, deduper);
        let change = change_in_step(folders, event, step);
        if let Some((folder, pending)) = change {
            if step < event.paths.len() {
                lemma_first_holding(folders, seq![event.paths[step].path]);
            } else {
                lemma_first_holding(folders, seq![event.paths[0].path, event.paths[1].path]);
            }
            let k = choose|k: int| 0 <= k < folders.len() && folders[k] == folder;
            let told_event = told(folder, pending, moments[step]);
            assert(told_event.folder == lossy_chars(folders[k].root));
            assert(is_well_told(folders, told_event));
        }
    }
}

/// A change that is told of a path in the folder gives the path relative to the
/// folder's root, and one in Git's data relative to the Git directory; the former
/// is not ignored, and the latter is told in Git mode only.
pub proof fn law_told_paths_are_relative(
    folders: Seq<FolderView>,
    seen: SeenPathView,
    kind: EventKind,
    folder: FolderView,
    pending: PendingView,
)
    requires
        forall|i: int| 0 <= i < folders.len() ==> (#[trigger] folders[i]).wf(),
        path_change(folders, seen, kind) == Some((folder, pending)),
    ensures
        folders.contains(folder),
        !pending.event_type.is_git() ==> ({
            let rel = stripped(seen.path, folder.root)->0;
            &&& components(folder.root) + components(rel) == components(seen.path)
            &&& !is_absolute(rel)
            &&& pending.path == Some(lossy_chars(rel))
            &&& !folder.ignores(rel, reported_entry(kind, seen.is_dir)->0 is Dir)
        }),
        pending.event_type.is_git() ==> folder.git is Some && ({
            let rel = stripped(seen.path, folder.git->0.git_dir)->0;
            &&& components(folder.git->0.git_dir) + components(rel) == components(seen.path)
            &&& !is_absolute(rel)
            &&& pending.git_path == Some(git_path_text(rel))
        }),
{
    lemma_first_holding(folders, seq![seen.path]);
    assert(is_under(seq![seen.path][0], folder.root));
    let k = choose|k: int| 0 <= k < folders.len() && folders[k] == folder;
    assert(folders[k].wf());
    law_strip_then_join(seen.path, folder.root);
    if folder.holds_git_path(seen.path) {
        law_strip_then_join(seen.path, folder.git->0.git_dir);
    }
}

/// Nothing is told of an ignored path outside Git's data.
pub proof fn law_ignored_paths_are_not_told(
    folders: Seq<FolderView>,
    seen: SeenPathView,
    kind: EventKind,
    folder: FolderView,
)
    requires
        first_holding(folders, seq![seen.path]) == Some(folder),
        !folder.holds_git_path(seen.path),
        folder.ignores(stripped(seen.path, folder.root)->0, true),
        folder.ignores(stripped(seen.path, folder.root)->0, false),
    ensures
        path_change(folders, seen, kind) is None,
{
}

/// In Git mode every creation, modification or removal in Git's data is told, by the
/// type that belongs to the file, whatever the ignore rules say.
pub proof fn law_git_changes_are_told(
    folders: Seq<FolderView>,
    seen: SeenPathView,
    kind: EventKind,
    folder: FolderView,
)
    requires
        first_holding(folders, seq![seen.path]) == Some(folder),
        folder.holds_git_path(seen.path),
        kind is Create || kind is Modify || kind is Remove,
    ensures
        path_change(folders, seen, kind) == Some(
            (
                folder,
                git_pending(
                    told_of_git(git_path_text(stripped(seen.path, folder.git->0.git_dir)->0)),
                    git_path_text(stripped(seen.path, folder.git->0.git_dir)->0),
                ),
            ),
        ),
        told_of_git(git_path_text(stripped(seen.path, folder.git->0.git_dir)->0)).is_git(),
{
}

/// Nothing is told of paths outside the watched folders.
pub proof fn law_other_paths_are_not_told(
    folders: Seq<FolderView>,
    seen: SeenPathView,
    kind: EventKind,
)
    requires
        forall|i: int|
            0 <= i < folders.len() ==> !is_under(seen.path, (#[trigger] folders[i]).root),
    ensures
        path_change(folders, seen, kind) is None,
{
    if first_holding(folders, seq![seen.path]) is Some {
        lemma_first_holding(folders, seq![seen.path]);
        let folder = first_holding(folders, seq![seen.path])->0;
        let k = choose|k: int| 0 <= k < folders.len() && folders[k] == folder;
        assert(is_under(seq![seen.path][0], folders[k].root));
    }
}

/// In a plain folder a change is told whatever ignore files the folder holds.
pub proof fn law_plain_folders_ignore_nothing(
    folders: Seq<FolderView>,
    seen: SeenPathView,
    kind: EventKind,
    folder: FolderView,
    entry: EntryKind,
    event_type: EventType,
)
    requires
        first_holding(folders, seq![seen.path]) == Some(folder),
        folder.git is None,
        reported_entry(kind, seen.is_dir) == Some(entry),
        told_of(kind, entry) == Some(event_type),
    ensures
        path_change(folders, seen, kind) == Some(
            (folder, worktree_pending(event_type, stripped(seen.path, folder.root)->0)),
        ),
{
    lemma_first_holding(folders, seq![seen.path]);
    assert(is_under(seq![seen.path][0], folder.root));
}

/// A new name is told once for both names, with the old one first, unless both are
/// ignored or one lies in Git's data.
pub proof fn law_new_names_are_told(
    folders: Seq<FolderView>,
    event: FsEventView,
    folder: FolderView,
)
    requires
        is_rename(event.kind),
        event.paths.len() >= 2,
        first_holding(folders, seq![event.paths[0].path, event.paths[1].path]) == Some(folder),
        !folder.holds_git_path(event.paths[0].path),
        !folder.holds_git_path(event.paths[1].path),
        ({
            let is_dir = event.paths[1].is_dir || event.paths[0].is_dir;
            !(folder.ignores(stripped(event.paths[0].path, folder.root)->0, is_dir)
                && folder.ignores(stripped(event.paths[1].path, folder.root)->0, is_dir))
        }),
    ensures
        name_change(folders, event) matches Some((f, p)) && f == folder && p.path == Some(
            lossy_chars(stripped(event.paths[0].path, folder.root)->0) + " -> "@ + lossy_chars(
                stripped(event.paths[1].path, folder.root)->0,
            ),
        ) && p.git_path is None && p.event_type == (if event.paths[1].is_dir
            || event.paths[0].is_dir {
            EventType::DirRenamed
        } else {
            EventType::FileRenamed
        }),
        name_change(folders, event) == Some(
            (
                folder,
                rename_pending(
                    if event.paths[1].is_dir || event.paths[0].is_dir {
                        EventType::DirRenamed
                    } else {
                        EventType::FileRenamed
                    },
                    stripped(event.paths[0].path, folder.root)->0,
                    stripped(event.paths[1].path, folder.root)->0,
                ),
            ),
        ),
{
    let paths = seq![event.paths[0].path, event.paths[1].path];
    lemma_first_holding(folders, paths);
    assert(is_under(paths[0], folder.root) && is_under(paths[1], folder.root));
}

/// A change that was told is not told again while the window lasts, whatever else was
/// asked for meanwhile.
pub proof fn law_repeated_changes_are_told_once(
    change: Option<(FolderView, PendingView)>,
    deduper: DeduperView,
    at: Moment,
    asked: Seq<(DedupKeyView, u128)>,
    again: Moment,
)
    requires
        deduped(change, deduper, at).0 is Some,
        forall|i: int|
            0 <= i < asked.len() ==> (#[trigger] asked[i]).1 <= at.nanos + deduper.window,
        again.nanos <= at.nanos + deduper.window,
    ensures
        deduped(change, deduped(change, deduper, at).1.after_all(asked), again).0 is None,
{
    let (folder, pending) = change->0;
    let key = key_of(folder, pending);
    law_duplicates_within_window_are_dropped(deduper, key, at.nanos, asked, again.nanos);
}

/// Outside Git's data a change is told of the path relative to the folder, by the type
/// that belongs to the report, just where the rules do not ignore an entry of that kind
/// there; nothing else is told of the path.
pub proof fn law_worktree_changes_are_told(
    folders: Seq<FolderView>,
    seen: SeenPathView,
    kind: EventKind,
    folder: FolderView,
)
    requires
        first_holding(folders, seq![seen.path]) == Some(folder),
        !folder.holds_git_path(seen.path),
    ensures
        (match reported_entry(kind, seen.is_dir) {
            None => path_change(folders, seen, kind) is None,
            Some(entry) => match told_of(kind, entry) {
                None => path_change(folders, seen, kind) is None,
                Some(event_type) => {
                    let rel = stripped(seen.path, folder.root)->0;
                    if folder.ignores(rel, entry is Dir) {
                        path_change(folders, seen, kind) is None
                    } else {
                        path_change(folders, seen, kind) matches Some((f, p)) && f == folder
                            && p.event_type == event_type && p.path == Some(lossy_chars(rel))
                            && p.git_path is None
                    }
                },
            },
        }),
{
    lemma_first_holding(folders, seq![seen.path]);
    assert(is_under(seq![seen.path][0], folder.root));
}

/// In Git's data a creation, modification or removal is told of the path relative to the
/// Git directory, with slashes, by the type that belongs to the file; nothing is told of
/// other reports.
pub proof fn law_git_data_is_told_by_its_files(
    folders: Seq<FolderView>,
    seen: SeenPathView,
    kind: EventKind,
    folder: FolderView,
)
    requires
        first_holding(folders, seq![seen.path]) == Some(folder),
        folder.holds_git_path(seen.path),
    ensures
        kind is Access || kind is Any || kind is Other ==> path_change(folders, seen, kind) is None,
        kind is Create || kind is Modify || kind is Remove ==> ({
            let text = forward_slashes(
                lossy_chars(stripped(seen.path, folder.git->0.git_dir)->0),
            );
            path_change(folders, seen, kind) matches Some((f, p)) && f == folder && p.event_type
                == told_of_git(text) && p.git_path == Some(text) && p.path is None
        }),
{
}

/// What makes a change of a path the same as another: its folder, its type, and its path,
/// whole, relative to the folder or to the folder's Git directory.
pub proof fn law_changes_are_known_by_their_paths(
    folders: Seq<FolderView>,
    seen: SeenPathView,
    kind: EventKind,
    folder: FolderView,
    pending: PendingView,
)
    requires
        path_change(folders, seen, kind) == Some((folder, pending)),
    ensures
        key_of(folder, pending).folder == components(folder.root),
        key_of(folder, pending).event_type == pending.event_type,
        !pending.event_type.is_git() ==> key_of(folder, pending).git_path is None && key_of(
            folder,
            pending,
        ).path == Some(components(stripped(seen.path, folder.root)->0)),
        pending.event_type.is_git() ==> key_of(folder, pending).path is None && key_of(
            folder,
            pending,
        ).git_path == Some(
            forward_slashes(lossy_chars(stripped(seen.path, folder.git->0.git_dir)->0)),
        ),
{
}

/// Two changes outside Git's data are taken for the same just where they are of the same
/// type and of the same path in the same folder.
pub proof fn law_different_paths_are_told_apart(
    folders: Seq<FolderView>,
    a: SeenPathView,
    a_kind: EventKind,
    a_folder: FolderView,
    a_pending: PendingView,
    b: SeenPathView,
    b_kind: EventKind,
    b_folder: FolderView,
    b_pending: PendingView,
)
    requires
        path_change(folders, a, a_kind) == Some((a_folder, a_pending)),
        path_change(folders, b, b_kind) == Some((b_folder, b_pending)),
        !a_pending.event_type.is_git(),
        !b_pending.event_type.is_git(),
    ensures
        key_of(a_folder, a_pending) == key_of(b_folder, b_pending) <==> components(a_folder.root)
            == components(b_folder.root) && a_pending.event_type == b_pending.event_type
            && components(a.path) == components(b.path),
{
    lemma_first_holding(folders, seq![a.path]);
    lemma_first_holding(folders, seq![b.path]);
    assert(is_under(seq![a.path][0], a_folder.root));
    assert(is_under(seq![b.path][0], b_folder.root));
    law_changes_are_known_by_their_paths(folders, a, a_kind, a_folder, a_pending);
    law_changes_are_known_by_their_paths(folders, b, b_kind, b_folder, b_pending);
    law_strip_then_join(a.path, a_folder.root);
    law_strip_then_join(b.path, b_folder.root);
    let x = components(stripped(a.path, a_folder.root)->0);
    let y = components(stripped(b.path, b_folder.root)->0);
    let n = components(a_folder.root).len() as int;
    if components(a_folder.root) == components(b_folder.root) && components(a.path) == components(
        b.path,
    ) {
        assert(components(a.path).skip(n) =~= x);
        assert(components(b.path).skip(n) =~= y);
    }
}

/// Two new names are taken for the same just where they are of the same type, in the same
/// folder, and the same, whatever the old ones were.
pub proof fn law_new_names_are_told_apart(
    folders: Seq<FolderView>,
    a: FsEventView,
    a_folder: FolderView,
    a_pending: PendingView,
    b: FsEventView,
    b_folder: FolderView,
    b_pending: PendingView,
)
    requires
        name_change(folders, a) == Some((a_folder, a_pending)),
        name_change(folders, b) == Some((b_folder, b_pending)),
    ensures
        key_of(a_folder, a_pending) == key_of(b_folder, b_pending) <==> components(a_folder.root)
            == components(b_folder.root) && a_pending.event_type == b_pending.event_type
            && components(a.paths[1].path) == components(b.paths[1].path),
{
    let p = seq![a.paths[0].path, a.paths[1].path];
    let q = seq![b.paths[0].path, b.paths[1].path];
    lemma_first_holding(folders, p);
    lemma_first_holding(folders, q);
    assert(is_under(p[1], a_folder.root));
    assert(is_under(q[1], b_folder.root));
    law_strip_then_join(p[1], a_folder.root);
    law_strip_then_join(q[1], b_folder.root);
    let x = components(stripped(p[1], a_folder.root)->0);
    let y = components(stripped(q[1], b_folder.root)->0);
    let n = components(a_folder.root).len() as int;
    if components(a_folder.root) == components(b_folder.root) && components(p[1]) == components(
        q[1],
    ) {
        assert(components(p[1]).skip(n) =~= x);
        assert(components(q[1]).skip(n) =~= y);
    }
}

/// A new name is told in no other case: not of another report, nor of fewer than two
/// paths, nor where no folder holds both, nor where one lies in Git's data, nor where both
/// are ignored.
pub proof fn law_other_names_are_not_told(folders: Seq<FolderView>, event: FsEventView)
    ensures
        !(event.kind == EventKind::Modify(ModifyKind::Name)) ==> name_change(folders, event) is None,
        event.paths.len() < 2 ==> name_change(folders, event) is None,
        event.paths.len() >= 2 ==> (match first_holding(
            folders,
            seq![event.paths[0].path, event.paths[1].path],
        ) {
            None => name_change(folders, event) is None,
            Some(folder) => {
                let is_dir = event.paths[0].is_dir || event.paths[1].is_dir;
                folder.holds_git_path(event.paths[0].path) || folder.holds_git_path(
                    event.paths[1].path,
                ) || (folder.ignores(stripped(event.paths[0].path, folder.root)->0, is_dir)
                    && folder.ignores(stripped(event.paths[1].path, folder.root)->0, is_dir))
                    ==> name_change(folders, event) is None
            },
        }),
{
    if event.paths.len() >= 2 {
        let paths = seq![event.paths[0].path, event.paths[1].path];
        if first_holding(folders, paths) is Some {
            lemma_first_holding(folders, paths);
            let folder = first_holding(folders, paths)->0;
            assert(is_under(paths[0], folder.root) && is_under(paths[1], folder.root));
        }
    }
}

/// A change is told, with its folder, its type, its path and the time, unless the same
/// change was let through within the window; then nothing is told.
pub proof fn law_new_changes_are_told(
    folder: FolderView,
    pending: PendingView,
    deduper: DeduperView,
    at: Moment,
)
    ensures
        (forall|i: int|
            0 <= i < deduper.seen.len() && (#[trigger] deduper.seen[i]).0 == key_of(folder, pending)
                ==> at.nanos > deduper.seen[i].1 + deduper.window) ==> deduped(
            Some((folder, pending)),
            deduper,
            at,
        ).0 == Some(
            WireEventView {
                folder: lossy_chars(folder.root),
                event_type: pending.event_type,
                path: pending.path,
                git_path: pending.git_path,
                ts_unix_ms: at.unix_ms,
            },
        ),
        (exists|i: int|
            0 <= i < deduper.seen.len() && (#[trigger] deduper.seen[i]).0 == key_of(folder, pending)
                && at.nanos <= deduper.seen[i].1 + deduper.window) ==> deduped(
            Some((folder, pending)),
            deduper,
            at,
        ).0 is None,
        deduped(None, deduper, at) == (None::<WireEventView>, deduper),
        deduped(Some((folder, pending)), deduper, at).1 == deduper.after(
            key_of(folder, pending),
            at.nanos,
        ),
{
    let key = key_of(folder, pending);
    if forall|i: int|
        0 <= i < deduper.seen.len() && (#[trigger] deduper.seen[i]).0 == key ==> at.nanos
            > deduper.seen[i].1 + deduper.window {
        law_stale_keys_are_let_through(deduper, key, at.nanos);
    } else {
        law_recent_keys_are_dropped(deduper, key, at.nanos);
    }
}

/// What is told of a change in step `step`: of the path at that place in the report, or,
/// behind the last path, of the new name.
pub proof fn law_steps_go_through_the_paths(folders: Seq<FolderView>, event: FsEventView, step: int)
    ensures
        0 <= step < event.paths.len() ==> change_in_step(folders, event, step) == path_change(
            folders,
            event.paths[step],
            event.kind,
        ),
        step == event.paths.len() ==> change_in_step(folders, event, step) == name_change(
            folders,
            event,
        ),
{
}

/// What is told in the steps of a translation: each step adds what is told of its change,
/// given what was let through before, behind what was told; no step takes anything back.
pub proof fn law_every_step_is_told(
    folders: Seq<FolderView>,
    event: FsEventView,
    moments: Seq<Moment>,
    step: nat,
    deduper: DeduperView,
)
    ensures
        translated(folders, event, moments, 0, deduper) == (
            Seq::<WireEventView>::empty(),
            deduper,
        ),
        ({
            let (before, known) = translated(folders, event, moments, step, deduper);
            let (after, left) = translated(folders, event, moments, step + 1, deduper);
            let change = if step < event.paths.len() {
                path_change(folders, event.paths[step as int], event.kind)
            } else {
                name_change(folders, event)
            };
            match change {
                None => after == before && left == known,
                Some((folder, pending)) => {
                    let key = key_of(folder, pending);
                    let at = moments[step as int];
                    if exists|i: int|
                        0 <= i < known.seen.len() && (#[trigger] known.seen[i]).0 == key && at.nanos
                            <= known.seen[i].1 + known.window {
                        after == before
                    } else {
                        after == before.push(
                            WireEventView {
                                folder: lossy_chars(folder.root),
                                event_type: pending.event_type,
                                path: pending.path,
                                git_path: pending.git_path,
                                ts_unix_ms: at.unix_ms,
                            },
                        ) && left.seen.contains((key, at.nanos))
                    }
                },
            }
        }),
{
    let (before, known) = translated(folders, event, moments, step, deduper);
    let change = change_in_step(folders, event, step as int);
    if let Some((folder, pending)) = change {
        let at = moments[step as int];
        let key = key_of(folder, pending);
        law_new_changes_are_told(folder, pending, known, at);
        law_only_what_is_let_through_is_remembered(known, key, at.nanos, (key, at.nanos));
        if !exists|i: int|
            0 <= i < known.seen.len() && (#[trigger] known.seen[i]).0 == key && at.nanos
                <= known.seen[i].1 + known.window {
            law_stale_keys_are_let_through(known, key, at.nanos);
        }
    }
}

} // verus!
