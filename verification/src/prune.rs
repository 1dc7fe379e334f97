//! Folders that have gone from the disk.

use vstd::prelude::*;

use crate::components::components;
use crate::event::{EventKind, FsEvent};
use crate::folder::MonitoredFolder;
use crate::fs_path::FsPath;
use crate::order::{law_listing_is_total, law_listing_is_transitive, listed_before};

verus! {

/// A report of the file system, or the text of the error in its place.
pub type RawEvent = Result<FsEvent, String>;

/// Whether a report may mean that a watched folder has gone: something was removed, or
/// the watching failed.
pub open spec fn may_have_gone(event: RawEvent) -> bool {
    match event {
        Ok(report) => report.kind is Remove,
        Err(_) => true,
    }
}

/// Whether a report may mean that a watched folder has gone.
pub fn should_prune_missing_watches(event: &RawEvent) -> (yes: bool)
    ensures
        yes == may_have_gone(*event),
        event matches Ok(report) ==> (yes <==> report.kind is Remove),
        event is Err ==> yes,
{
    match event {
        Ok(report) => matches!(report.kind, EventKind::Remove(_)),
        Err(_) => true,
    }
}

/// Paths listed in order, each once.
pub open spec fn in_order(paths: Seq<FsPath>) -> bool {
    forall|i: int, j: int|
        0 <= i < j < paths.len() ==> listed_before(
            components((#[trigger] paths[i])@),
            components((#[trigger] paths[j])@),
        )
}

/// Whether the path is among those listed.
pub open spec fn lists(paths: Seq<FsPath>, path: Seq<u8>) -> bool {
    exists|k: int|
        0 <= k < paths.len() && components((#[trigger] paths[k])@) == components(path)
}

/// Puts a path in its place among those listed, unless it is there.
fn list_path(paths: &mut Vec<FsPath>, path: &FsPath)
    requires
        in_order(old(paths)@),
    ensures
        in_order(final(paths)@),
        forall|other: Seq<u8>|
            #![trigger lists(final(paths)@, other)]
            lists(final(paths)@, other) <==> lists(old(paths)@, other) || components(other)
                == components(path@),
        forall|k: int|
            0 <= k < final(paths)@.len() ==> (#[trigger] final(paths)@[k])@ == path@ || exists|j:
                int|
                0 <= j < old(paths)@.len() && old(paths)@[j] == final(paths)@[k],
{
    let ghost before = paths@;
    let ghost new = components(path@);
    let mut i: usize = 0;
    while i < paths.len() && paths[i].is_before(path)
        invariant
            i <= paths@.len(),
            paths@ == before,
            new == components(path@),
            forall|k: int|
                0 <= k < i ==> listed_before(components((#[trigger] paths@[k])@), new),
        decreases paths@.len() - i,
    {
        i += 1;
    }
    if i < paths.len() && paths[i] == *path {
        assert forall|other: Seq<u8>| components(other) == new implies lists(before, other) by {
            assert(components(before[i as int]@) == components(other));
        }
        assert forall|k: int| 0 <= k < paths@.len() implies exists|j: int|
            0 <= j < before.len() && before[j] == #[trigger] paths@[k] by {
            assert(before[k] == paths@[k]);
        }
        return ;
    }
    let copy = path.clone();
    let ghost at = i as int;
    proof {
        assert forall|k: int| at <= k < before.len() implies listed_before(
            new,
            components((#[trigger] before[k])@),
        ) by {
            law_listing_is_total(components(before[at]@), new);
            if k > at {
                law_listing_is_transitive(
                    new,
                    components(before[at]@),
                    components(before[k]@),
                );
            }
        }
    }
    paths.insert(i, copy);
    proof {
        let after = paths@;
        assert(after == before.insert(at, copy));
        assert forall|x: int, y: int| 0 <= x < y < after.len() implies listed_before(
            components((#[trigger] after[x])@),
            components((#[trigger] after[y])@),
        ) by {
            let a: int = if x < at { x } else { x - 1 };
            let b: int = if y < at { y } else { y - 1 };
            if x != at {
                assert(after[x] == before[a]);
            }
            if y != at {
                assert(after[y] == before[b]);
            }
        }
        assert forall|k: int| 0 <= k < after.len() implies (#[trigger] after[k])@ == path@ || exists|
            j: int,
        |
            0 <= j < before.len() && before[j] == after[k] by {
            if k != at {
                let j: int = if k < at { k } else { k - 1 };
                assert(before[j] == after[k]);
            }
        }
        assert forall|other: Seq<u8>|
            #![trigger lists(after, other)]
            lists(after, other) <==> lists(before, other) || components(other) == new by {
            if lists(after, other) {
                let k = choose|k: int|
                    0 <= k < after.len() && components((#[trigger] after[k])@) == components(other);
                if k != at {
                    let j: int = if k < at { k } else { k - 1 };
                    assert(before[j] == after[k]);
                }
            }
            if lists(before, other) {
                let k = choose|k: int|
                    0 <= k < before.len() && components((#[trigger] before[k])@) == components(
                        other,
                    );
                let j: int = if k < at { k } else { k + 1 };
                assert(after[j] == before[k]);
                assert(components(after[j]@) == components(other));
            }
            if components(other) == new {
                assert(components(after[at]@) == components(other));
            }
        }
    }
}

/// Whether the root of one of the first `n` folders is the path and is no directory.
pub open spec fn is_missing(
    folders: Seq<MonitoredFolder>,
    is_dir: Seq<bool>,
    n: int,
    path: Seq<u8>,
) -> bool {
    exists|i: int|
        0 <= i < n && !is_dir[i] && components((#[trigger] folders[i])@.root) == components(path)
}

/// Whether the path is spelled as the root of one of the first `n` folders that is no
/// directory.
pub open spec fn spells_missing(
    folders: Seq<MonitoredFolder>,
    is_dir: Seq<bool>,
    n: int,
    path: Seq<u8>,
) -> bool {
    exists|i: int| 0 <= i < n && !is_dir[i] && (#[trigger] folders[i])@.root == path
}

/// The roots of the watched folders to stop watching after a report: those that are no
/// directories, in order and each once, where the report may mean that one has gone.
/// `is_dir` says of each folder whether its root is a directory.
pub fn remove_missing_watches(
    folders: &Vec<MonitoredFolder>,
    is_dir: &Vec<bool>,
    event: &RawEvent,
) -> (roots: Vec<FsPath>)
    requires
        is_dir@.len() == folders@.len(),
    ensures
        in_order(roots@),
        !may_have_gone(*event) ==> roots@.len() == 0,
        may_have_gone(*event) ==> forall|path: Seq<u8>|
            lists(roots@, path) <==> #[trigger] is_missing(
                folders@,
                is_dir@,
                folders@.len() as int,
                path,
            ),
        forall|k: int|
            0 <= k < roots@.len() ==> spells_missing(
                folders@,
                is_dir@,
                folders@.len() as int,
                (#[trigger] roots@[k])@,
            ),
{
    let mut roots: Vec<FsPath> = Vec::new();
    if !should_prune_missing_watches(event) {
        return roots;
    }
    let mut i: usize = 0;
    while i < folders.len()
        invariant
            i <= folders@.len() == is_dir@.len(),
            in_order(roots@),
            forall|path: Seq<u8>|
                lists(roots@, path) <==> #[trigger] is_missing(
                    folders@,
                    is_dir@,
                    i as int,
                    path,
                ),
            forall|k: int|
                0 <= k < roots@.len() ==> spells_missing(
                    folders@,
                    is_dir@,
                    i as int,
                    (#[trigger] roots@[k])@,
                ),
        decreases folders@.len() - i,
    {
        let ghost before = roots@;
        if !is_dir[i] {
            list_path(&mut roots, folders[i].root());
        }
        proof {
            assert forall|k: int| 0 <= k < roots@.len() implies spells_missing(
                folders@,
                is_dir@,
                i + 1,
                (#[trigger] roots@[k])@,
            ) by {
                let path = roots@[k]@;
                if exists|j: int| 0 <= j < before.len() && before[j] == roots@[k] {
                    let j = choose|j: int| 0 <= j < before.len() && before[j] == roots@[k];
                    assert(spells_missing(folders@, is_dir@, i as int, before[j]@));
                    let m = choose|m: int|
                        0 <= m < i && !is_dir@[m] && (#[trigger] folders@[m])@.root == path;
                    assert(folders@[m]@.root == path);
                } else {
                    assert(folders@[i as int]@.root == path);
                }
            }
            assert forall|path: Seq<u8>|
                lists(roots@, path) <==> #[trigger] is_missing(
                    folders@,
                    is_dir@,
                    i + 1,
                    path,
                ) by {
                assert(lists(before, path) == is_missing(folders@, is_dir@, i as int, path));
                if is_missing(folders@, is_dir@, i as int, path) {
                    let j = choose|j: int|
                        0 <= j < i && !is_dir@[j] && components((#[trigger] folders@[j])@.root)
                            == components(path);
                    assert(components(folders@[j]@.root) == components(path));
                }
                if !is_dir@[i as int] && components(folders@[i as int]@.root) == components(path) {
                    assert(is_missing(folders@, is_dir@, i + 1, path));
                }
                if is_missing(folders@, is_dir@, i + 1, path) {
                    let j = choose|j: int|
                        0 <= j < i + 1 && !is_dir@[j] && components((#[trigger] folders@[j])@.root)
                            == components(path);
                    if j < i {
                        assert(is_missing(folders@, is_dir@, i as int, path));
                    }
                }
            }
        }
        i += 1;
    }
    roots
}

/// A removal of whatever kind, and a failure of the watching, may mean that a folder has
/// gone; nothing else may.
pub proof fn law_only_removals_and_failures_prune(event: RawEvent)
    ensures
        event matches Ok(report) ==> (may_have_gone(event) <==> report.kind is Remove),
        event is Err ==> may_have_gone(event),
{
}

/// A root is missing where a folder with that root is no directory, and only there.
pub proof fn law_missing_roots_are_no_directories(
    folders: Seq<MonitoredFolder>,
    is_dir: Seq<bool>,
    path: Seq<u8>,
)
    ensures
        is_missing(folders, is_dir, folders.len() as int, path) <==> exists|i: int|
            0 <= i < folders.len() && !is_dir[i] && components((#[trigger] folders[i])@.root)
                == components(path),
        forall|i: int|
            0 <= i < folders.len() && !is_dir[i] ==> is_missing(
                folders,
                is_dir,
                folders.len() as int,
                (#[trigger] folders[i])@.root,
            ),
{
    assert forall|i: int| 0 <= i < folders.len() && !is_dir[i] implies is_missing(
        folders,
        is_dir,
        folders.len() as int,
        (#[trigger] folders[i])@.root,
    ) by {
        assert(components(folders[i]@.root) == components(folders[i]@.root));
    }
}

/// A path is listed where one of those listed has its components, and those listed are in
/// order.
pub proof fn law_listed_paths_are_in_order(paths: Seq<FsPath>, path: Seq<u8>)
    ensures
        lists(paths, path) <==> exists|k: int|
            0 <= k < paths.len() && components((#[trigger] paths[k])@) == components(path),
        in_order(paths) <==> forall|i: int, j: int|
            0 <= i < j < paths.len() ==> listed_before(
                components((#[trigger] paths[i])@),
                components((#[trigger] paths[j])@),
            ),
{
}

/// Missing roots are listed as the folders that have them spell them.
pub proof fn law_missing_roots_keep_their_spelling(
    folders: Seq<MonitoredFolder>,
    is_dir: Seq<bool>,
    path: Seq<u8>,
)
    ensures
        spells_missing(folders, is_dir, folders.len() as int, path) <==> exists|i: int|
            0 <= i < folders.len() && !is_dir[i] && (#[trigger] folders[i])@.root == path,
{
}

} // verus!
