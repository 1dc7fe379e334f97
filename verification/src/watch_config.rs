//! From the config file to the folders that are to be watched.

use vstd::prelude::*;

use crate::components::components;
use crate::config::{
    loaded, save_steps, ConfigRead, ConfigReadView, ConfigStore, GongdConfig, SaveStep,
};
use crate::environment::Environment;
use crate::error::{IoError, IoErrorKind, IoErrorView};
use crate::folder::{
    discovered, existing_dir, resolve_existing_dir, DirProbe, FolderProbe, FolderView,
    MonitoredFolder,
};
use crate::fs_path::{same_paths, FsPath};
use crate::paths::Vars;
use crate::skipped::{law_every_failure_is_told, skipped_of, Skipped, SkippedView};
use crate::views::{result_view, seq_view};

verus! {

/// A folder in the config: how it is spelled there, and where that leads.
#[derive(Debug)]
pub struct ConfiguredFolder {
    pub original: FsPath,
    pub root: FsPath,
}

/// A folder in the config, in bytes.
pub struct ConfiguredView {
    pub original: Seq<u8>,
    pub root: Seq<u8>,
}

impl View for ConfiguredFolder {
    type V = ConfiguredView;

    open spec fn view(&self) -> ConfiguredView {
        ConfiguredView { original: self.original@, root: self.root@ }
    }
}

impl Clone for ConfiguredFolder {
    fn clone(&self) -> (copy: ConfiguredFolder)
        ensures
            copy@ == self@,
    {
        ConfiguredFolder { original: self.original.clone(), root: self.root.clone() }
    }
}

/// A spelling, and the directory that it leads to, if any.
pub struct Tried {
    pub original: Seq<u8>,
    pub root: Option<Seq<u8>>,
}

/// The spelling `path`, tried on what the disk says.
pub open spec fn try_path(path: Seq<u8>, env: Vars, probe: DirProbe) -> Tried {
    Tried {
        original: path,
        root: match existing_dir(path, env, result_view(probe.canonical), probe.is_dir) {
            Ok(root) => Some(root),
            Err(_) => None,
        },
    }
}

/// The spellings `paths`, each tried on what the disk says.
pub open spec fn try_paths(paths: Seq<Seq<u8>>, env: Vars, probes: Seq<DirProbe>) -> Seq<Tried> {
    Seq::new(paths.len(), |i: int| try_path(paths[i], env, probes[i]))
}

/// Whether one of the folders has the root.
pub open spec fn has_root(folders: Seq<ConfiguredView>, root: Seq<u8>) -> bool {
    exists|i: int|
        0 <= i < folders.len() && components((#[trigger] folders[i]).root) == components(root)
}

/// The folders that remain: those that lead to a directory, and of several that lead
/// to the same one the first.
pub open spec fn kept(tried: Seq<Tried>) -> Seq<ConfiguredView>
    decreases tried.len(),
{
    if tried.len() == 0 {
        Seq::empty()
    } else {
        let before = kept(tried.drop_last());
        let Tried { original, root } = tried.last();
        match root {
            Some(r) => if has_root(before, r) {
                before
            } else {
                before.push(ConfiguredView { original, root: r })
            },
            None => before,
        }
    }
}

/// The spellings of the folders.
pub open spec fn originals(folders: Seq<ConfiguredView>) -> Seq<Seq<u8>> {
    folders.map_values(|f: ConfiguredView| f.original)
}

impl ConfiguredFolder {
    /// The folder that a spelling leads to.
    pub fn from_path(path: &FsPath, env: &Environment, probe: &DirProbe) -> (folder: Result<
        ConfiguredFolder,
        IoError,
    >)
        ensures
            result_view(folder) == match existing_dir(
                path@,
                env@,
                result_view(probe.canonical),
                probe.is_dir,
            ) {
                Ok(root) => Ok(ConfiguredView { original: path@, root }),
                Err(error) => Err(error),
            },
    {
        match resolve_existing_dir(path, env, probe) {
            Ok(root) => Ok(ConfiguredFolder { original: path.clone(), root }),
            Err(error) => Err(error),
        }
    }

    /// Where the folder is.
    pub fn resolved(&self) -> (root: &FsPath)
        ensures
            root@ == self@.root,
    {
        &self.root
    }
}

/// The folders that remain of a list of spellings, whether some did not, and those that
/// lead to no directory.
#[derive(Debug)]
pub struct LoadedConfiguredFolders {
    pub folders: Vec<ConfiguredFolder>,
    pub changed: bool,
    pub skipped: Vec<Skipped>,
}

/// Where each of the spellings `paths` leads, or why it leads nowhere.
pub open spec fn dir_outcomes(paths: Seq<Seq<u8>>, env: Vars, probes: Seq<DirProbe>) -> Seq<
    Result<Seq<u8>, IoErrorView>,
> {
    Seq::new(
        paths.len(),
        |i: int| existing_dir(paths[i], env, result_view(probes[i].canonical), probes[i].is_dir),
    )
}

/// The spellings that lead to no directory, with the reasons.
pub open spec fn skipped_dirs(paths: Seq<Seq<u8>>, env: Vars, probes: Seq<DirProbe>) -> Seq<
    SkippedView,
> {
    skipped_of(paths, dir_outcomes(paths, env, probes))
}

/// The first of the folders with the given root.
pub fn find_root(folders: &Vec<ConfiguredFolder>, root: &FsPath) -> (index: Option<usize>)
    ensures
        index is Some <==> has_root(seq_view(folders@), root@),
        index matches Some(i) ==> i < folders@.len() && components(folders@[i as int]@.root)
            == components(root@) && forall|k: int|
            0 <= k < i ==> components((#[trigger] folders@[k])@.root) != components(root@),
{
    let mut i: usize = 0;
    while i < folders.len()
        invariant
            i <= folders@.len(),
            forall|k: int|
                0 <= k < i ==> components((#[trigger] folders@[k])@.root) != components(root@),
        decreases folders@.len() - i,
    {
        if *folders[i].resolved() == *root {
            assert(seq_view(folders@)[i as int] == folders@[i as int]@);
            return Some(i);
        }
        i += 1;
    }
    assert forall|k: int| 0 <= k < seq_view(folders@).len() implies components(
        (#[trigger] seq_view(folders@)[k]).root,
    ) != components(root@) by {
        assert(seq_view(folders@)[k] == folders@[k]@);
    }
    None
}

/// What remains of the spellings `paths`; `probes` is what the disk says about each.
pub fn load_configured_folders(paths: &Vec<FsPath>, env: &Environment, probes: &Vec<DirProbe>) -> (out:
    LoadedConfiguredFolders)
    requires
        probes@.len() == paths@.len(),
    ensures
        seq_view(out.folders@) == kept(try_paths(seq_view(paths@), env@, probes@)),
        out.changed == !same_paths(originals(seq_view(out.folders@)), seq_view(paths@)),
        seq_view(out.skipped@) == skipped_dirs(seq_view(paths@), env@, probes@),
{
    let ghost outcomes = dir_outcomes(seq_view(paths@), env@, probes@);
    let mut skipped: Vec<Skipped> = Vec::new();
    assert(seq_view(skipped@) =~= skipped_of(seq_view(paths@), outcomes.take(0)));
    let ghost tried = try_paths(seq_view(paths@), env@, probes@);
    let mut folders: Vec<ConfiguredFolder> = Vec::new();
    let mut i: usize = 0;
    assert(seq_view(folders@) =~= kept(tried.take(0)));
    while i < paths.len()
        invariant
            i <= paths@.len() == probes@.len(),
            tried == try_paths(seq_view(paths@), env@, probes@),
            seq_view(folders@) == kept(tried.take(i as int)),
            outcomes == dir_outcomes(seq_view(paths@), env@, probes@),
            seq_view(skipped@) == skipped_of(seq_view(paths@), outcomes.take(i as int)),
        decreases paths@.len() - i,
    {
        let ghost before = folders@;
        let ghost passed_over = skipped@;
        assert(outcomes.take(i + 1).drop_last() =~= outcomes.take(i as int));
        assert(tried.take(i + 1).drop_last() =~= tried.take(i as int));
        assert(tried.take(i + 1).last() == try_path(paths@[i as int]@, env@, probes@[i as int]));
        match ConfiguredFolder::from_path(&paths[i], env, &probes[i]) {
            Ok(folder) => {
                if find_root(&folders, folder.resolved()).is_none() {
                    folders.push(folder);
                    assert(seq_view(folders@) =~= seq_view(before).push(folder@));
                }
            },
            Err(error) => {
                let entry = Skipped { path: paths[i].clone(), error };
                skipped.push(entry);
                assert(seq_view(skipped@) =~= seq_view(passed_over).push(entry@));
            },
        }
        i += 1;
    }
    assert(tried.take(i as int) =~= tried);
    assert(outcomes.take(i as int) =~= outcomes);
    let changed = folders.len() != paths.len();
    proof {
        law_only_dropped_folders_change_the_config(tried);
        assert(Seq::new(tried.len(), |k: int| tried[k].original) =~= seq_view(paths@));
    }
    LoadedConfiguredFolders { folders, changed, skipped }
}

/// What remains is as long as what was tried only where it is the same.
pub proof fn law_only_dropped_folders_change_the_config(tried: Seq<Tried>)
    ensures
        kept(tried).len() <= tried.len(),
        kept(tried).len() == tried.len() <==> same_paths(
            originals(kept(tried)),
            Seq::new(tried.len(), |k: int| tried[k].original),
        ),
        kept(tried).len() == tried.len() ==> originals(kept(tried)) == Seq::new(
            tried.len(),
            |k: int| tried[k].original,
        ),
    decreases tried.len(),
{
    let all = Seq::new(tried.len(), |k: int| tried[k].original);
    if tried.len() > 0 {
        let less = tried.drop_last();
        law_only_dropped_folders_change_the_config(less);
        let fewer = Seq::new(less.len(), |k: int| less[k].original);
        assert(all =~= fewer.push(tried.last().original));
        if kept(tried).len() == tried.len() {
            assert(originals(kept(tried)) =~= originals(kept(less)).push(tried.last().original));
        }
    } else {
        assert(originals(kept(tried)) =~= all);
    }
}

/// What was loaded, unless it had to be written anew and could not be.
pub open spec fn reconciled_with(
    snapshot: LoadedConfiguredFolders,
    saved: Result<(), IoError>,
) -> Result<Vec<ConfiguredFolder>, IoError> {
    match saved {
        Err(error) => if snapshot.changed {
            Err(error)
        } else {
            Ok(snapshot.folders)
        },
        Ok(_) => Ok(snapshot.folders),
    }
}

/// What was loaded, once it was written anew where it had to be.
fn reconcile_snapshot(snapshot: LoadedConfiguredFolders, saved: Result<(), IoError>) -> (folders:
    Result<Vec<ConfiguredFolder>, IoError>)
    ensures
        folders == reconciled_with(snapshot, saved),
{
    if snapshot.changed {
        match saved {
            Ok(()) => {},
            Err(error) => return Err(error),
        }
    }
    Ok(snapshot.folders)
}

/// Whether a failure to load the config leaves the watched folders as they are.
pub open spec fn is_passed_over(error: IoErrorView) -> bool {
    error.kind == IoErrorKind::InvalidData
}

/// The folders that the command line asks for are written to the config where that is
/// missing or names none, and some of them are there. A malformed config is left alone.
pub open spec fn seeded(
    inputs: Seq<Seq<u8>>,
    config: Result<Seq<Seq<u8>>, IoErrorView>,
    env: Vars,
    probes: Seq<DirProbe>,
) -> Result<Option<Seq<ConfiguredView>>, IoErrorView> {
    let folders = kept(try_paths(inputs, env, probes));
    if inputs.len() == 0 {
        Ok(None)
    } else {
        match config {
            Err(error) => if is_passed_over(error) {
                Ok(None)
            } else {
                Err(error)
            },
            Ok(configured) => if configured.len() > 0 || folders.len() == 0 {
                Ok(None)
            } else {
                Ok(Some(folders))
            },
        }
    }
}

/// What the command line comes to at the start: the folders to write to the config, if
/// any, and those that it asks for and that are passed over.
#[derive(Debug)]
pub struct Seed {
    pub folders: Option<Vec<ConfiguredFolder>>,
    pub skipped: Vec<Skipped>,
}

/// The folders to write, if any, by their views.
pub open spec fn seeding_view(seeding: Result<Seed, IoError>) -> Result<
    Option<Seq<ConfiguredView>>,
    IoErrorView,
> {
    match seeding {
        Ok(seed) => match seed.folders {
            Some(folders) => Ok(Some(seq_view(folders@))),
            None => Ok(None),
        },
        Err(error) => Err(error@),
    }
}

/// Whether the disk is asked about the folders on the command line: there are some, and
/// the config could be loaded and names none.
pub open spec fn seeds(inputs: Seq<Seq<u8>>, config: Result<Seq<Seq<u8>>, IoErrorView>) -> bool {
    inputs.len() > 0 && (config matches Ok(configured) && configured.len() == 0)
}

/// The folders that the discovered ones among the candidates are.
pub open spec fn found(candidates: Seq<Result<FolderView, IoErrorView>>) -> Seq<FolderView>
    decreases candidates.len(),
{
    if candidates.len() == 0 {
        Seq::empty()
    } else {
        match candidates.last() {
            Ok(folder) => found(candidates.drop_last()).push(folder),
            Err(_) => found(candidates.drop_last()),
        }
    }
}

/// The configured folders, each discovered anew on what the disk says.
pub open spec fn rediscovered(folders: Seq<ConfiguredView>, env: Vars, probes: Seq<FolderProbe>) -> Seq<
    Result<FolderView, IoErrorView>,
> {
    Seq::new(
        folders.len(),
        |i: int|
            discovered(
                folders[i].original,
                env,
                result_view(probes[i].dir.canonical),
                probes[i].dir.is_dir,
                probes[i].git_is_dir,
                seq_view(probes[i].ignore_files@),
            ),
    )
}

/// The folders to watch, or that those watched stay.
pub open spec fn folders_to_apply(
    snapshot: Result<Seq<ConfiguredView>, IoErrorView>,
    env: Vars,
    probes: Seq<FolderProbe>,
) -> Result<Option<Seq<FolderView>>, IoErrorView> {
    match snapshot {
        Err(error) => if is_passed_over(error) {
            Ok(None)
        } else {
            Err(error)
        },
        Ok(folders) => Ok(Some(found(rediscovered(folders, env, probes)))),
    }
}

/// A list of configured folders, or why there is none, by its views.
pub open spec fn snapshot_view(snapshot: Result<Vec<ConfiguredFolder>, IoError>) -> Result<
    Seq<ConfiguredView>,
    IoErrorView,
> {
    match snapshot {
        Ok(folders) => Ok(seq_view(folders@)),
        Err(error) => Err(error@),
    }
}

/// What a config comes to.
#[derive(Debug)]
pub enum ConfigChange {
    /// Those watched stay, as the config could not be made sense of.
    PassedOver(IoError),
    /// The folders are to be watched; those skipped could not be discovered.
    Apply { folders: Vec<MonitoredFolder>, skipped: Vec<Skipped> },
}

/// The folders to watch, by their views.
pub open spec fn to_apply_view(change: Result<ConfigChange, IoError>) -> Result<
    Option<Seq<FolderView>>,
    IoErrorView,
> {
    match change {
        Ok(ConfigChange::Apply { folders, .. }) => Ok(Some(seq_view(folders@))),
        Ok(ConfigChange::PassedOver(_)) => Ok(None),
        Err(error) => Err(error@),
    }
}

/// How the config file decides about the watched folders.
#[derive(Debug)]
pub struct ConfigWatch {
    pub startup_cli_inputs: Vec<FsPath>,
    pub store: ConfigStore,
}

impl ConfigWatch {
    /// The config file, and the folders that the command line asks for.
    pub fn new(store: ConfigStore, startup_cli_inputs: Vec<FsPath>) -> (watch: ConfigWatch)
        ensures
            watch.store == store,
            watch.startup_cli_inputs == startup_cli_inputs,
    {
        ConfigWatch { startup_cli_inputs, store }
    }

    /// The folders to write to the config at the start, if any; `probes` is what the
    /// disk says about each that the command line asks for.
    pub fn seed_from_cli_if_needed(
        &self,
        read: ConfigRead,
        env: &Environment,
        probes: &Vec<DirProbe>,
    ) -> (seeding: Result<Seed, IoError>)
        requires
            probes@.len() == self.startup_cli_inputs@.len(),
        ensures
            seeding_view(seeding) == seeded(
                seq_view(self.startup_cli_inputs@),
                loaded(self.store.path@, read@),
                env@,
                probes@,
            ),
            seeding matches Ok(seed) ==> seq_view(seed.skipped@) == (if seeds(
                seq_view(self.startup_cli_inputs@),
                loaded(self.store.path@, read@),
            ) {
                skipped_dirs(seq_view(self.startup_cli_inputs@), env@, probes@)
            } else {
                seq![]
            }),
    {
        let nothing = Seed { folders: None, skipped: Vec::new() };
        assert(seq_view(nothing.skipped@) =~= seq![]);
        if self.startup_cli_inputs.len() == 0 {
            return Ok(nothing);
        }
        let present = read.is_present();
        let config = match self.store.load(read) {
            Ok(config) => config,
            Err(error) => if error.kind == IoErrorKind::InvalidData {
                return Ok(nothing);
            } else {
                return Err(error);
            },
        };
        if present && config.folders.len() > 0 {
            return Ok(nothing);
        }
        let loaded_inputs = load_configured_folders(&self.startup_cli_inputs, env, probes);
        let skipped = loaded_inputs.skipped;
        if loaded_inputs.folders.len() == 0 {
            return Ok(Seed { folders: None, skipped });
        }
        Ok(Seed { folders: Some(loaded_inputs.folders), skipped })
    }

    /// The folders that the config names and that are there; `probes` is what the disk
    /// says about each that it names. Where some are not there the config is to be
    /// written anew.
    pub fn load_configured_folders_snapshot(
        &self,
        read: ConfigRead,
        env: &Environment,
        probes: &Vec<DirProbe>,
    ) -> (out: Result<LoadedConfiguredFolders, IoError>)
        requires
            read@ matches ConfigReadView::Parsed(paths) ==> probes@.len() == paths.len(),
            read is Missing ==> probes@.len() == 0,
        ensures
            match (out, loaded(self.store.path@, read@)) {
                (Ok(l), Ok(paths)) => seq_view(l.folders@) == kept(
                    try_paths(paths, env@, probes@),
                ) && l.changed == !same_paths(originals(seq_view(l.folders@)), paths)
                    && seq_view(l.skipped@) == skipped_dirs(paths, env@, probes@),
                (Err(e), Err(error)) => e@ == error,
                _ => false,
            },
    {
        match self.store.load(read) {
            Ok(config) => {
                assert(config@.len() == config.folders@.len());
                Ok(load_configured_folders(&config.folders, env, probes))
            },
            Err(error) => Err(error),
        }
    }

    /// The steps of writing the config that spells the folders as they are spelled.
    pub fn save_configured_folders(&self, folders: &Vec<ConfiguredFolder>) -> (steps: Vec<SaveStep>)
        ensures
            seq_view(steps@) == save_steps(self.store.path@, originals(seq_view(folders@))),
    {
        let mut paths: Vec<FsPath> = Vec::new();
        let mut i: usize = 0;
        while i < folders.len()
            invariant
                i <= folders@.len(),
                paths@.len() == i,
                forall|k: int| 0 <= k < i ==> (#[trigger] paths@[k])@ == folders@[k]@.original,
            decreases folders@.len() - i,
        {
            paths.push(folders[i].original.clone());
            i += 1;
        }
        let config = GongdConfig { folders: paths };
        assert(config@ =~= originals(seq_view(folders@)));
        self.store.save(&config)
    }

    /// The steps of writing the config anew where what was loaded differs from it; none
    /// where it does not, or could not be loaded.
    pub fn reconcile_steps(&self, snapshot: &Result<LoadedConfiguredFolders, IoError>) -> (steps:
        Vec<SaveStep>)
        ensures
            seq_view(steps@) == (match snapshot {
                Ok(loaded) => if loaded.changed {
                    save_steps(self.store.path@, originals(seq_view(loaded.folders@)))
                } else {
                    seq![]
                },
                Err(_) => seq![],
            }),
    {
        if let Ok(loaded) = snapshot {
            if loaded.changed {
                return self.save_configured_folders(&loaded.folders);
            }
        }
        let none: Vec<SaveStep> = Vec::new();
        assert(seq_view(none@) =~= seq![]);
        none
    }

    /// The configured folders, once a config that names others was written anew; `saved`
    /// is what came of the writing, where it was needed.
    pub fn load_configured_folders_for_write(
        &self,
        snapshot: Result<LoadedConfiguredFolders, IoError>,
        saved: Result<(), IoError>,
    ) -> (folders: Result<Vec<ConfiguredFolder>, IoError>)
        ensures
            (match snapshot {
                Err(error) => folders == Err::<Vec<ConfiguredFolder>, IoError>(error),
                Ok(loaded) => folders == reconciled_with(loaded, saved),
            }),
    {
        match snapshot {
            Ok(loaded) => reconcile_snapshot(loaded, saved),
            Err(error) => Err(error),
        }
    }

    /// The folders to watch now, or that those watched stay; `probes` is what the disk
    /// says about each configured folder.
    pub fn load_folder_states_for_apply(
        &self,
        snapshot: Result<Vec<ConfiguredFolder>, IoError>,
        env: &Environment,
        probes: &Vec<FolderProbe>,
    ) -> (change: Result<ConfigChange, IoError>)
        requires
            snapshot matches Ok(configured) ==> probes@.len() == configured@.len(),
            forall|i: int| 0 <= i < probes@.len() ==> (#[trigger] probes@[i]).dir.wf(),
        ensures
            to_apply_view(change) == folders_to_apply(snapshot_view(snapshot), env@, probes@),
            change matches Ok(ConfigChange::PassedOver(error)) ==> snapshot == Err::<
                Vec<ConfiguredFolder>,
                IoError,
            >(error),
            (match (change, snapshot) {
                (Ok(ConfigChange::Apply { skipped, .. }), Ok(configured)) => seq_view(skipped@)
                    == skipped_of(
                    originals(seq_view(configured@)),
                    rediscovered(seq_view(configured@), env@, probes@),
                ),
                _ => true,
            }),
    {
        let configured = match snapshot {
            Ok(configured) => configured,
            Err(error) => if error.kind == IoErrorKind::InvalidData {
                return Ok(ConfigChange::PassedOver(error));
            } else {
                return Err(error);
            },
        };
        let ghost names = originals(seq_view(configured@));
        let ghost all = rediscovered(seq_view(configured@), env@, probes@);
        let mut folders: Vec<MonitoredFolder> = Vec::new();
        let mut i: usize = 0;
        let mut skipped: Vec<Skipped> = Vec::new();
        assert(seq_view(folders@) =~= found(all.take(0)));
        assert(seq_view(skipped@) =~= skipped_of(names, all.take(0)));
        while i < configured.len()
            invariant
                i <= configured@.len() == probes@.len(),
                forall|k: int| 0 <= k < probes@.len() ==> (#[trigger] probes@[k]).dir.wf(),
                all == rediscovered(seq_view(configured@), env@, probes@),
                seq_view(folders@) == found(all.take(i as int)),
                names == originals(seq_view(configured@)),
                seq_view(skipped@) == skipped_of(names, all.take(i as int)),
            decreases configured@.len() - i,
        {
            let ghost before = folders@;
            assert(all.take(i + 1).drop_last() =~= all.take(i as int));
            assert(seq_view(configured@)[i as int] == configured@[i as int]@);
            let ghost passed_over = skipped@;
            match MonitoredFolder::discover(&configured[i].original, env, &probes[i]) {
                Ok(folder) => {
                    folders.push(folder);
                    assert(seq_view(folders@) =~= seq_view(before).push(folder@));
                },
                Err(error) => {
                    let entry = Skipped { path: configured[i].original.clone(), error };
                    skipped.push(entry);
                    assert(seq_view(skipped@) =~= seq_view(passed_over).push(entry@));
                },
            }
            i += 1;
        }
        assert(all.take(i as int) =~= all);
        Ok(ConfigChange::Apply { folders, skipped })
    }
}

/// No two of the folders that remain lead to the same directory.
pub proof fn law_kept_roots_are_distinct(tried: Seq<Tried>)
    ensures
        forall|i: int, j: int|
            0 <= i < j < kept(tried).len() ==> components((#[trigger] kept(tried)[i]).root)
                != components((#[trigger] kept(tried)[j]).root),
    decreases tried.len(),
{
    if tried.len() > 0 {
        law_kept_roots_are_distinct(tried.drop_last());
        let a = kept(tried.drop_last());
        let b = kept(tried);
        assert forall|i: int, j: int| 0 <= i < j < b.len() implies components(
            (#[trigger] b[i]).root,
        ) != components((#[trigger] b[j]).root) by {
            assert(a[i] == b[i]);
            if j < a.len() {
                assert(a[j] == b[j]);
            } else {
                assert(components(a[i].root) != components(b[j].root));
            }
        }
    }
}

/// The spelling that is the first to lead to its directory.
pub open spec fn is_first(tried: Seq<Tried>, i: int) -> bool {
    tried[i].root matches Some(root) && forall|j: int|
        0 <= j < i ==> !((#[trigger] tried[j]).root matches Some(r) && components(r) == components(
            root,
        ))
}

/// A spelling that leads to a directory, as a folder.
pub open spec fn as_folder(tried: Tried) -> ConfiguredView {
    ConfiguredView { original: tried.original, root: tried.root->0 }
}

/// Whether one of the spellings leads to the root.
pub open spec fn leads_to(tried: Seq<Tried>, root: Seq<u8>) -> bool {
    exists|i: int|
        0 <= i < tried.len() && ((#[trigger] tried[i]).root matches Some(r) && components(r)
            == components(root))
}

/// Every directory that a spelling leads to remains, and no other one.
pub proof fn law_every_directory_is_kept(tried: Seq<Tried>, root: Seq<u8>)
    ensures
        has_root(kept(tried), root) <==> leads_to(tried, root),
    decreases tried.len(),
{
    if tried.len() > 0 {
        let less = tried.drop_last();
        law_every_directory_is_kept(less, root);
        let a = kept(less);
        let b = kept(tried);
        assert(forall|k: int| 0 <= k < a.len() ==> #[trigger] b[k] == a[k]);
        if has_root(a, root) {
            let k = choose|k: int|
                0 <= k < a.len() && components((#[trigger] a[k]).root) == components(root);
            assert(components(b[k].root) == components(root));
            let i = choose|i: int|
                0 <= i < less.len() && ((#[trigger] less[i]).root matches Some(r) && components(r)
                    == components(root));
            assert(tried[i] == less[i]);
        } else {
            assert(forall|i: int| 0 <= i < less.len() ==> #[trigger] tried[i] == less[i]);
            if b.len() > a.len() {
                let last = b[b.len() - 1];
                assert(last == as_folder(tried.last()));
                if components(last.root) == components(root) {
                    assert(tried[tried.len() - 1].root is Some);
                }
            } else if let Some(r) = tried.last().root {
                if components(r) == components(root) {
                    let k = choose|k: int|
                        0 <= k < a.len() && components((#[trigger] a[k]).root) == components(r);
                    assert(components(a[k].root) == components(root));
                }
            }
        }
    }
}

/// The last spelling remains just where it is the first to lead to its directory.
proof fn lemma_last_spelling(tried: Seq<Tried>)
    requires
        tried.len() > 0,
    ensures
        is_first(tried, tried.len() - 1) ==> kept(tried) == kept(tried.drop_last()).push(
            as_folder(tried.last()),
        ),
        !is_first(tried, tried.len() - 1) ==> kept(tried) == kept(tried.drop_last()),
{
    let less = tried.drop_last();
    let n = less.len() as int;
    if let Some(root) = tried[n].root {
        law_every_directory_is_kept(less, root);
        assert(is_first(tried, n) == !leads_to(less, root)) by {
            if leads_to(less, root) {
                let i = choose|i: int|
                    0 <= i < less.len() && ((#[trigger] less[i]).root matches Some(r) && components(
                        r,
                    ) == components(root));
                assert(tried[i] == less[i]);
            } else {
                assert forall|j: int| 0 <= j < n implies !((#[trigger] tried[j]).root matches Some(r)
                    && components(r) == components(root)) by {
                    assert(less[j] == tried[j]);
                }
            }
        }
    }
}

proof fn lemma_is_first_of_fewer(tried: Seq<Tried>, i: int)
    requires
        0 <= i < tried.len() - 1,
    ensures
        is_first(tried, i) == is_first(tried.drop_last(), i),
{
    let less = tried.drop_last();
    assert(forall|j: int| 0 <= j <= i ==> #[trigger] tried[j] == less[j]);
    assert(forall|j: int| 0 <= j <= i ==> #[trigger] less[j] == tried[j]);
}

/// A spelling remains where it is the first to lead to its directory.
pub proof fn law_first_spelling_is_kept(tried: Seq<Tried>, i: int)
    requires
        0 <= i < tried.len(),
        is_first(tried, i),
    ensures
        kept(tried).contains(as_folder(tried[i])),
    decreases tried.len(),
{
    let less = tried.drop_last();
    lemma_last_spelling(tried);
    if i < less.len() {
        lemma_is_first_of_fewer(tried, i);
        law_first_spelling_is_kept(less, i);
        let k = choose|k: int| 0 <= k < kept(less).len() && kept(less)[k] == as_folder(less[i]);
        assert(kept(tried)[k] == as_folder(tried[i]));
    } else {
        assert(kept(tried)[kept(tried).len() - 1] == as_folder(tried[i]));
    }
}

/// What remains was spelled, and was the first to lead to its directory: later
/// spellings of the same directory, and those that lead nowhere, are dropped.
pub proof fn law_only_first_spellings_are_kept(tried: Seq<Tried>, k: int)
    requires
        0 <= k < kept(tried).len(),
    ensures
        exists|i: int|
            0 <= i < tried.len() && #[trigger] is_first(tried, i) && kept(tried)[k] == as_folder(
                tried[i],
            ),
    decreases tried.len(),
{
    let less = tried.drop_last();
    lemma_last_spelling(tried);
    if k < kept(less).len() {
        law_only_first_spellings_are_kept(less, k);
        let i = choose|i: int|
            0 <= i < less.len() && #[trigger] is_first(less, i) && kept(less)[k] == as_folder(
                less[i],
            );
        lemma_is_first_of_fewer(tried, i);
        assert(is_first(tried, i));
    } else {
        assert(is_first(tried, tried.len() - 1));
    }
}

/// What was kept, tried again with the same outcome.
pub open spec fn retried(folders: Seq<ConfiguredView>) -> Seq<Tried> {
    folders.map_values(|f: ConfiguredView| Tried { original: f.original, root: Some(f.root) })
}

/// Loading the config that was written for what remains finds the same folders and
/// drops none, as long as they lead to where they led.
pub proof fn law_reloading_keeps_all(folders: Seq<ConfiguredView>)
    requires
        forall|i: int, j: int|
            0 <= i < j < folders.len() ==> components((#[trigger] folders[i]).root) != components(
                (#[trigger] folders[j]).root,
            ),
    ensures
        kept(retried(folders)) == folders,
    decreases folders.len(),
{
    if folders.len() > 0 {
        let less = folders.drop_last();
        law_reloading_keeps_all(less);
        assert(retried(folders).drop_last() =~= retried(less));
        assert(!has_root(less, folders.last().root)) by {
            if has_root(less, folders.last().root) {
                let i = choose|i: int|
                    0 <= i < less.len() && components((#[trigger] less[i]).root) == components(
                        folders.last().root,
                    );
                assert(less[i] == folders[i]);
                assert(components(folders[i].root) != components(folders[folders.len() - 1].root));
            }
        }
        assert(kept(retried(folders)) =~= folders);
    } else {
        assert(kept(retried(folders)) =~= folders);
    }
}

/// Without a config file no folder is configured, and then none is to be watched.
pub proof fn law_deleted_config_stops_all_watches(path: Seq<u8>, env: Vars, probes: Seq<FolderProbe>)
    ensures
        loaded(path, ConfigReadView::Missing) == Ok::<Seq<Seq<u8>>, IoErrorView>(Seq::empty()),
        kept(try_paths(Seq::empty(), env, Seq::empty())).len() == 0,
        folders_to_apply(Ok(Seq::empty()), env, probes) == Ok::<Option<Seq<FolderView>>, IoErrorView>(
            Some(Seq::empty()),
        ),
{
    assert(rediscovered(Seq::empty(), env, probes) =~= Seq::empty());
}

/// A malformed config changes nothing: no folders are applied, and none are seeded.
pub proof fn law_malformed_config_is_passed_over(
    path: Seq<u8>,
    reason: Seq<char>,
    inputs: Seq<Seq<u8>>,
    env: Vars,
    dirs: Seq<DirProbe>,
    probes: Seq<FolderProbe>,
)
    ensures
        loaded(path, ConfigReadView::Malformed(reason)) is Err,
        folders_to_apply(
            Err(loaded(path, ConfigReadView::Malformed(reason))->Err_0),
            env,
            probes,
        ) == Ok::<Option<Seq<FolderView>>, IoErrorView>(None),
        seeded(inputs, loaded(path, ConfigReadView::Malformed(reason)), env, dirs) == Ok::<
            Option<Seq<ConfiguredView>>,
            IoErrorView,
        >(None),
{
}

/// The command line never replaces folders that the config names.
pub proof fn law_config_is_authoritative(
    inputs: Seq<Seq<u8>>,
    configured: Seq<Seq<u8>>,
    env: Vars,
    probes: Seq<DirProbe>,
)
    requires
        configured.len() > 0,
    ensures
        seeded(inputs, Ok(configured), env, probes) == Ok::<Option<Seq<ConfiguredView>>, IoErrorView>(
            None,
        ),
{
}

/// Every directory that a spelling in the config leads to stays configured, spelled as it
/// is first spelled, and nothing else does.
pub proof fn law_config_keeps_every_directory(
    paths: Seq<Seq<u8>>,
    env: Vars,
    probes: Seq<DirProbe>,
    i: int,
)
    requires
        0 <= i < paths.len(),
        existing_dir(paths[i], env, result_view(probes[i].canonical), probes[i].is_dir) is Ok,
    ensures
        ({
            let root = existing_dir(
                paths[i],
                env,
                result_view(probes[i].canonical),
                probes[i].is_dir,
            )->Ok_0;
            let folders = kept(try_paths(paths, env, probes));
            &&& has_root(folders, root)
            &&& (forall|j: int|
                0 <= j < i ==> (existing_dir(
                    #[trigger] paths[j],
                    env,
                    result_view(probes[j].canonical),
                    probes[j].is_dir,
                ) matches Ok(r) ==> components(r) != components(root))) ==> folders.contains(
                ConfiguredView { original: paths[i], root },
            )
        }),
{
    let tried = try_paths(paths, env, probes);
    let root = tried[i].root->0;
    law_every_directory_is_kept(tried, root);
    assert(leads_to(tried, root));
    if forall|j: int|
        0 <= j < i ==> (existing_dir(
            #[trigger] paths[j],
            env,
            result_view(probes[j].canonical),
            probes[j].is_dir,
        ) matches Ok(r) ==> components(r) != components(root)) {
        assert forall|j: int| 0 <= j < i implies !((#[trigger] tried[j]).root matches Some(r)
            && components(r) == components(root)) by {
            assert(tried[j].original == paths[j]);
        }
        law_first_spelling_is_kept(tried, i);
    }
}

/// What stays configured is spelled in the config and leads to a directory.
pub proof fn law_config_keeps_directories_only(
    paths: Seq<Seq<u8>>,
    env: Vars,
    probes: Seq<DirProbe>,
    k: int,
)
    requires
        0 <= k < kept(try_paths(paths, env, probes)).len(),
    ensures
        exists|i: int|
            0 <= i < paths.len() && #[trigger] paths[i] == kept(
                try_paths(paths, env, probes),
            )[k].original && existing_dir(
                paths[i],
                env,
                result_view(probes[i].canonical),
                probes[i].is_dir,
            ) == Ok::<Seq<u8>, IoErrorView>(kept(try_paths(paths, env, probes))[k].root),
{
    let tried = try_paths(paths, env, probes);
    law_only_first_spellings_are_kept(tried, k);
    let i = choose|i: int|
        0 <= i < tried.len() && #[trigger] is_first(tried, i) && kept(tried)[k] == as_folder(
            tried[i],
        );
    assert(paths[i] == kept(tried)[k].original);
}

/// What stays configured stays in its order: what is put behind the spellings changes
/// nothing about those before.
pub proof fn law_kept_folders_stay_in_order(tried: Seq<Tried>, more: Seq<Tried>)
    ensures
        kept(tried).is_prefix_of(kept(tried + more)),
    decreases more.len(),
{
    let all = kept(tried + more);
    if more.len() == 0 {
        assert(tried + more =~= tried);
        assert(all.subrange(0, kept(tried).len() as int) =~= kept(tried));
    } else {
        law_kept_folders_stay_in_order(tried, more.drop_last());
        assert((tried + more).drop_last() =~= tried + more.drop_last());
        let less = kept(tried + more.drop_last());
        let n = kept(tried).len() as int;
        assert(less.subrange(0, n) == kept(tried));
        assert(all.subrange(0, n) =~= less.subrange(0, n));
    }
}

/// The spellings that are written are those of the folders, one for one.
pub proof fn law_spellings_are_written_as_they_are(folders: Seq<ConfiguredView>, i: int)
    requires
        0 <= i < folders.len(),
    ensures
        originals(folders).len() == folders.len(),
        originals(folders)[i] == folders[i].original,
{
}

/// Two lists hold the same paths where they are as long as each other and each path is
/// the same by its components.
pub proof fn law_lists_are_the_same_path_by_path(a: Seq<Seq<u8>>, b: Seq<Seq<u8>>)
    ensures
        same_paths(a, b) <==> a.len() == b.len() && forall|i: int|
            0 <= i < a.len() ==> components(#[trigger] a[i]) == components(b[i]),
{
}

/// A spelling is told to be skipped just where it leads to no directory, with the reason.
pub proof fn law_skipped_folders_lead_nowhere(
    paths: Seq<Seq<u8>>,
    env: Vars,
    probes: Seq<DirProbe>,
    skipped: SkippedView,
)
    ensures
        skipped_dirs(paths, env, probes).contains(skipped) <==> exists|i: int|
            0 <= i < paths.len() && #[trigger] paths[i] == skipped.path && existing_dir(
                paths[i],
                env,
                result_view(probes[i].canonical),
                probes[i].is_dir,
            ) == Err::<Seq<u8>, IoErrorView>(skipped.error),
{
    let outcomes = dir_outcomes(paths, env, probes);
    law_every_failure_is_told(paths, outcomes, skipped);
    if skipped_dirs(paths, env, probes).contains(skipped) {
        let i = choose|i: int|
            0 <= i < outcomes.len() && #[trigger] outcomes[i] == Err::<Seq<u8>, IoErrorView>(
                skipped.error,
            ) && paths[i] == skipped.path;
        assert(paths[i] == skipped.path);
    }
    if exists|i: int|
        0 <= i < paths.len() && #[trigger] paths[i] == skipped.path && existing_dir(
            paths[i],
            env,
            result_view(probes[i].canonical),
            probes[i].is_dir,
        ) == Err::<Seq<u8>, IoErrorView>(skipped.error) {
        let i = choose|i: int|
            0 <= i < paths.len() && #[trigger] paths[i] == skipped.path && existing_dir(
                paths[i],
                env,
                result_view(probes[i].canonical),
                probes[i].is_dir,
            ) == Err::<Seq<u8>, IoErrorView>(skipped.error);
        assert(outcomes[i] == Err::<Seq<u8>, IoErrorView>(skipped.error));
    }
}

/// Where the config is missing or names no folder, every directory that the command line
/// leads to is written to it, spelled as it is first spelled there.
pub proof fn law_every_directory_is_seeded(
    inputs: Seq<Seq<u8>>,
    env: Vars,
    probes: Seq<DirProbe>,
    i: int,
)
    requires
        0 <= i < inputs.len(),
        existing_dir(inputs[i], env, result_view(probes[i].canonical), probes[i].is_dir) is Ok,
    ensures
        seeded(inputs, Ok(Seq::empty()), env, probes) matches Ok(Some(folders)) && ({
            let root = existing_dir(
                inputs[i],
                env,
                result_view(probes[i].canonical),
                probes[i].is_dir,
            )->Ok_0;
            &&& has_root(folders, root)
            &&& (forall|j: int|
                0 <= j < i ==> (existing_dir(
                    #[trigger] inputs[j],
                    env,
                    result_view(probes[j].canonical),
                    probes[j].is_dir,
                ) matches Ok(r) ==> components(r) != components(root))) ==> folders.contains(
                ConfiguredView { original: inputs[i], root },
            )
        }),
{
    law_config_keeps_every_directory(inputs, env, probes, i);
}

/// Nothing is seeded but directories that the command line leads to, each once, and only
/// where the config could be loaded and names no folder. A failure to load the config is
/// handed on, unless it is passed over.
pub proof fn law_only_directories_are_seeded(
    inputs: Seq<Seq<u8>>,
    config: Result<Seq<Seq<u8>>, IoErrorView>,
    env: Vars,
    probes: Seq<DirProbe>,
)
    ensures
        seeded(inputs, config, env, probes) matches Ok(Some(folders)) ==> {
            &&& inputs.len() > 0
            &&& config matches Ok(configured) && configured.len() == 0
            &&& folders.len() > 0
            &&& forall|k: int|
                0 <= k < folders.len() ==> exists|i: int|
                    0 <= i < inputs.len() && #[trigger] inputs[i] == (
                    #[trigger] folders[k]).original && existing_dir(
                        inputs[i],
                        env,
                        result_view(probes[i].canonical),
                        probes[i].is_dir,
                    ) == Ok::<Seq<u8>, IoErrorView>(folders[k].root)
            &&& forall|k: int, m: int|
                0 <= k < m < folders.len() ==> components((#[trigger] folders[k]).root)
                    != components((#[trigger] folders[m]).root)
        },
        seeded(inputs, config, env, probes) is Err <==> inputs.len() > 0 && (config matches Err(
            error,
        ) && error.kind != IoErrorKind::InvalidData),
        seeded(inputs, config, env, probes) matches Err(e) ==> config == Err::<
            Seq<Seq<u8>>,
            IoErrorView,
        >(e),
{
    let folders = kept(try_paths(inputs, env, probes));
    assert forall|k: int| 0 <= k < folders.len() implies exists|i: int|
        0 <= i < inputs.len() && #[trigger] inputs[i] == (#[trigger] folders[k]).original
            && existing_dir(
            inputs[i],
            env,
            result_view(probes[i].canonical),
            probes[i].is_dir,
        ) == Ok::<Seq<u8>, IoErrorView>(folders[k].root) by {
        law_config_keeps_directories_only(inputs, env, probes, k);
    }
    law_kept_roots_are_distinct(try_paths(inputs, env, probes));
}

/// The disk is asked about the command line just where something can be seeded.
pub proof fn law_command_line_counts_without_config(
    inputs: Seq<Seq<u8>>,
    config: Result<Seq<Seq<u8>>, IoErrorView>,
)
    ensures
        seeds(inputs, config) <==> inputs.len() > 0 && config is Ok && config->Ok_0.len() == 0,
{
}

/// Every configured folder that can be discovered is to be watched, in the order of the
/// config, and no other is.
pub proof fn law_configured_folders_are_applied(
    folders: Seq<ConfiguredView>,
    env: Vars,
    probes: Seq<FolderProbe>,
    i: int,
)
    requires
        0 <= i < folders.len(),
    ensures
        folders_to_apply(Ok(folders), env, probes) matches Ok(Some(applied)) && ({
            let candidate = discovered(
                folders[i].original,
                env,
                result_view(probes[i].dir.canonical),
                probes[i].dir.is_dir,
                probes[i].git_is_dir,
                seq_view(probes[i].ignore_files@),
            );
            &&& candidate matches Ok(folder) ==> applied.contains(folder)
            &&& applied.len() <= folders.len()
            &&& (forall|k: int|
                0 <= k < folders.len() ==> discovered(
                    (#[trigger] folders[k]).original,
                    env,
                    result_view(probes[k].dir.canonical),
                    probes[k].dir.is_dir,
                    probes[k].git_is_dir,
                    seq_view(probes[k].ignore_files@),
                ) is Ok) ==> applied.len() == folders.len() && candidate == Ok::<
                FolderView,
                IoErrorView,
            >(applied[i])
        }),
{
    let all = rediscovered(folders, env, probes);
    lemma_found(all, i);
    if forall|k: int|
        0 <= k < folders.len() ==> discovered(
            (#[trigger] folders[k]).original,
            env,
            result_view(probes[k].dir.canonical),
            probes[k].dir.is_dir,
            probes[k].git_is_dir,
            seq_view(probes[k].ignore_files@),
        ) is Ok {
        assert forall|k: int| 0 <= k < all.len() implies (#[trigger] all[k]) is Ok by {
            assert(folders[k].original == folders[k].original);
        }
        lemma_all_found(all);
    }
}

proof fn lemma_found(candidates: Seq<Result<FolderView, IoErrorView>>, i: int)
    requires
        0 <= i < candidates.len(),
    ensures
        candidates[i] matches Ok(folder) ==> found(candidates).contains(folder),
        found(candidates).len() <= candidates.len(),
    decreases candidates.len(),
{
    let less = candidates.drop_last();
    let a = found(less);
    let b = found(candidates);
    if less.len() > 0 {
        let j: int = if i < less.len() { i } else { 0 };
        lemma_found(less, j);
    }
    if let Ok(folder) = candidates[i] {
        if i < less.len() {
            assert(less[i] == candidates[i]);
            let k = choose|k: int| 0 <= k < a.len() && a[k] == folder;
            assert(b[k] == folder);
        } else {
            assert(b[b.len() - 1] == folder);
        }
    }
}

proof fn lemma_all_found(candidates: Seq<Result<FolderView, IoErrorView>>)
    requires
        forall|k: int| 0 <= k < candidates.len() ==> (#[trigger] candidates[k]) is Ok,
    ensures
        found(candidates).len() == candidates.len(),
        forall|k: int|
            0 <= k < candidates.len() ==> #[trigger] candidates[k] == Ok::<FolderView, IoErrorView>(
                found(candidates)[k],
            ),
    decreases candidates.len(),
{
    if candidates.len() > 0 {
        let less = candidates.drop_last();
        assert forall|k: int| 0 <= k < less.len() implies (#[trigger] less[k]) is Ok by {
            assert(less[k] == candidates[k]);
        }
        lemma_all_found(less);
        assert forall|k: int| 0 <= k < candidates.len() implies #[trigger] candidates[k] == Ok::<
            FolderView,
            IoErrorView,
        >(found(candidates)[k]) by {
            if k < less.len() {
                assert(less[k] == candidates[k]);
            }
        }
    }
}

/// No folder is applied that was not discovered for one of the configured ones.
pub proof fn law_only_configured_folders_are_applied(
    folders: Seq<ConfiguredView>,
    env: Vars,
    probes: Seq<FolderProbe>,
    k: int,
)
    requires
        0 <= k < found(rediscovered(folders, env, probes)).len(),
    ensures
        exists|i: int|
            0 <= i < folders.len() && discovered(
                (#[trigger] folders[i]).original,
                env,
                result_view(probes[i].dir.canonical),
                probes[i].dir.is_dir,
                probes[i].git_is_dir,
                seq_view(probes[i].ignore_files@),
            ) == Ok::<FolderView, IoErrorView>(found(rediscovered(folders, env, probes))[k]),
{
    let all = rediscovered(folders, env, probes);
    let i = lemma_found_was_candidate(all, k);
    assert(folders[i].original == folders[i].original);
}

proof fn lemma_found_was_candidate(
    candidates: Seq<Result<FolderView, IoErrorView>>,
    k: int,
) -> (i: int)
    requires
        0 <= k < found(candidates).len(),
    ensures
        0 <= i < candidates.len(),
        candidates[i] == Ok::<FolderView, IoErrorView>(found(candidates)[k]),
    decreases candidates.len(),
{
    let less = candidates.drop_last();
    if k < found(less).len() {
        let i = lemma_found_was_candidate(less, k);
        assert(less[i] == candidates[i]);
        i
    } else {
        candidates.len() - 1
    }
}

/// A failure to load the config is handed on, unless it is that of a malformed config.
pub proof fn law_other_failures_are_handed_on(
    error: IoErrorView,
    env: Vars,
    probes: Seq<FolderProbe>,
)
    ensures
        error.kind == IoErrorKind::InvalidData ==> folders_to_apply(Err(error), env, probes)
            == Ok::<Option<Seq<FolderView>>, IoErrorView>(None),
        error.kind != IoErrorKind::InvalidData ==> folders_to_apply(Err(error), env, probes)
            == Err::<Option<Seq<FolderView>>, IoErrorView>(error),
{
}

/// What was loaded stands, unless the config had to be written anew and could not be.
pub proof fn law_failed_writing_is_handed_on(
    snapshot: LoadedConfiguredFolders,
    saved: Result<(), IoError>,
)
    ensures
        snapshot.changed && saved is Err ==> reconciled_with(snapshot, saved) == Err::<
            Vec<ConfiguredFolder>,
            IoError,
        >(saved->Err_0),
        !snapshot.changed || saved is Ok ==> reconciled_with(snapshot, saved) == Ok::<
            Vec<ConfiguredFolder>,
            IoError,
        >(snapshot.folders),
{
}

/// What was loaded, seeded or is to be applied is seen as it is.
pub proof fn law_outcomes_are_seen_as_they_are(
    folders: Vec<ConfiguredFolder>,
    states: Vec<MonitoredFolder>,
    skipped: Vec<Skipped>,
    error: IoError,
)
    ensures
        seeding_view(Ok(Seed { folders: Some(folders), skipped })) == Ok::<
            Option<Seq<ConfiguredView>>,
            IoErrorView,
        >(Some(seq_view(folders@))),
        seeding_view(Ok(Seed { folders: None, skipped })) == Ok::<
            Option<Seq<ConfiguredView>>,
            IoErrorView,
        >(None),
        seeding_view(Err(error)) == Err::<Option<Seq<ConfiguredView>>, IoErrorView>(error@),
        to_apply_view(Ok(ConfigChange::Apply { folders: states, skipped })) == Ok::<
            Option<Seq<FolderView>>,
            IoErrorView,
        >(Some(seq_view(states@))),
        to_apply_view(Ok(ConfigChange::PassedOver(error))) == Ok::<
            Option<Seq<FolderView>>,
            IoErrorView,
        >(None),
        to_apply_view(Err(error)) == Err::<Option<Seq<FolderView>>, IoErrorView>(error@),
        snapshot_view(Ok(folders)) == Ok::<Seq<ConfiguredView>, IoErrorView>(seq_view(folders@)),
        snapshot_view(Err(error)) == Err::<Seq<ConfiguredView>, IoErrorView>(error@),
{
}

/// What was found stays in the order in which it was sought, each as it was found, and
/// what was not found leaves no gap.
pub proof fn law_found_folders_stay_in_order(
    before: Seq<Result<FolderView, IoErrorView>>,
    behind: Seq<Result<FolderView, IoErrorView>>,
    folder: FolderView,
    error: IoErrorView,
)
    ensures
        found(before + behind) == found(before) + found(behind),
        found(seq![Ok::<FolderView, IoErrorView>(folder)]) == seq![folder],
        found(seq![Err::<FolderView, IoErrorView>(error)]) == Seq::<FolderView>::empty(),
    decreases behind.len(),
{
    let one = seq![Ok::<FolderView, IoErrorView>(folder)];
    let none = seq![Err::<FolderView, IoErrorView>(error)];
    assert(one.drop_last() =~= Seq::empty());
    assert(none.drop_last() =~= Seq::empty());
    assert(found(one.drop_last()) =~= Seq::empty());
    assert(found(none.drop_last()) =~= Seq::empty());
    assert(found(one) =~= seq![folder]);
    if behind.len() == 0 {
        assert(before + behind =~= before);
        assert(found(before) + found(behind) =~= found(before));
    } else {
        law_found_folders_stay_in_order(before, behind.drop_last(), folder, error);
        assert((before + behind).drop_last() =~= before + behind.drop_last());
        assert(found(before + behind) =~= found(before) + found(behind));
    }
}

} // verus!
