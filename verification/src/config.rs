//! The config file that says which folders are watched.

use vstd::prelude::*;
use vstd::string::StringExecFns;
use vstd::utf8::is_ascii_chars_encode_utf8;

use crate::components::{
    components, is_absolute, lemma_last_replaced, lemma_spans, lemma_spans_from, spans, spans_from,
    DOT, SLASH,
};
use crate::error::{IoError, IoErrorKind, IoErrorView};
use crate::folder::spelled;
use crate::fs_path::{
    copy_paths, name_of, parent_of, same_path_lists, same_paths, stem_end, with_extension, FsPath,
};
use crate::text::{concat, lossy_chars};
use crate::views::{result_view, seq_view};

verus! {

/// What the config file says.
#[derive(Debug)]
pub struct GongdConfig {
    pub folders: Vec<FsPath>,
}

impl View for GongdConfig {
    type V = Seq<Seq<u8>>;

    open spec fn view(&self) -> Seq<Seq<u8>> {
        seq_view(self.folders@)
    }
}

impl Clone for GongdConfig {
    fn clone(&self) -> (copy: GongdConfig)
        ensures
            copy@ == self@,
    {
        GongdConfig { folders: copy_paths(&self.folders) }
    }
}

impl PartialEq for GongdConfig {
    /// Configs are equal when they name equal paths in the same order.
    fn eq(&self, other: &GongdConfig) -> (same: bool) {
        same_path_lists(&self.folders, &other.folders)
    }
}

impl vstd::std_specs::cmp::PartialEqSpecImpl for GongdConfig {
    open spec fn obeys_eq_spec() -> bool {
        true
    }

    open spec fn eq_spec(&self, other: &GongdConfig) -> bool {
        same_paths(self@, other@)
    }
}

impl Eq for GongdConfig {

}

impl Default for GongdConfig {
    fn default() -> (config: GongdConfig)
        ensures
            config@ == Seq::<Seq<u8>>::empty(),
    {
        let config = GongdConfig { folders: Vec::new() };
        assert(config@ =~= Seq::empty());
        config
    }
}

/// What came of reading the config file.
#[derive(Debug)]
pub enum ConfigRead {
    /// There is no such file.
    Missing,
    /// The file could not be read.
    Unreadable(IoError),
    /// The file was read but is no config; the text says why.
    Malformed(String),
    /// The file was read.
    Parsed(GongdConfig),
}

/// What came of reading the config file.
pub enum ConfigReadView {
    Missing,
    Unreadable(IoErrorView),
    Malformed(Seq<char>),
    Parsed(Seq<Seq<u8>>),
}

impl View for ConfigRead {
    type V = ConfigReadView;

    open spec fn view(&self) -> ConfigReadView {
        match self {
            ConfigRead::Missing => ConfigReadView::Missing,
            ConfigRead::Unreadable(error) => ConfigReadView::Unreadable(error@),
            ConfigRead::Malformed(reason) => ConfigReadView::Malformed(reason@),
            ConfigRead::Parsed(config) => ConfigReadView::Parsed(config@),
        }
    }
}

impl ConfigRead {
    /// Whether there is a config file.
    pub fn is_present(&self) -> (yes: bool)
        ensures
            yes == !(self is Missing),
    {
        !matches!(self, ConfigRead::Missing)
    }
}

/// The config that is in force after the file at `path` was read: none of the folders
/// where there is no file.
pub open spec fn loaded(path: Seq<u8>, read: ConfigReadView) -> Result<Seq<Seq<u8>>, IoErrorView> {
    match read {
        ConfigReadView::Missing => Ok(Seq::empty()),
        ConfigReadView::Unreadable(error) => Err(error),
        ConfigReadView::Malformed(reason) => Err(
            IoErrorView {
                kind: IoErrorKind::InvalidData,
                message: "failed to parse "@ + lossy_chars(path) + ": "@ + reason,
            },
        ),
        ConfigReadView::Parsed(folders) => Ok(folders),
    }
}

/// One step of writing the config file.
#[derive(Debug)]
pub enum SaveStep {
    /// Make the directory and those above it.
    CreateDir(FsPath),
    /// Write the config to the file.
    Write(FsPath, GongdConfig),
    /// Put the first file in the place of the second.
    Rename(FsPath, FsPath),
}

/// One step of writing the config file.
pub enum SaveStepView {
    CreateDir(Seq<u8>),
    Write(Seq<u8>, Seq<Seq<u8>>),
    Rename(Seq<u8>, Seq<u8>),
}

impl View for SaveStep {
    type V = SaveStepView;

    open spec fn view(&self) -> SaveStepView {
        match self {
            SaveStep::CreateDir(dir) => SaveStepView::CreateDir(dir@),
            SaveStep::Write(file, config) => SaveStepView::Write(file@, config@),
            SaveStep::Rename(from, to) => SaveStepView::Rename(from@, to@),
        }
    }
}

/// The file that the config is written to before it takes the place of the old one.
pub open spec fn temp_of(path: Seq<u8>) -> Seq<u8> {
    with_extension(path, spelled("json.tmp"@))
}

/// The steps of writing the config file: its directory is made, the config is written
/// beside it, and then put in its place.
pub open spec fn save_steps(path: Seq<u8>, config: Seq<Seq<u8>>) -> Seq<SaveStepView> {
    let write = seq![
        SaveStepView::Write(temp_of(path), config),
        SaveStepView::Rename(temp_of(path), path),
    ];
    match parent_of(path) {
        Some(dir) => seq![SaveStepView::CreateDir(dir)] + write,
        None => write,
    }
}

/// The config file of the daemon.
#[derive(Debug)]
pub struct ConfigStore {
    pub path: FsPath,
}

impl Clone for ConfigStore {
    fn clone(&self) -> (copy: ConfigStore)
        ensures
            copy.path@ == self.path@,
    {
        ConfigStore { path: self.path.clone() }
    }
}

impl ConfigStore {
    /// The config file at the given path.
    pub fn new(path: FsPath) -> (store: ConfigStore)
        ensures
            store.path == path,
    {
        ConfigStore { path }
    }

    /// The config that is in force after the file was read.
    pub fn load(&self, read: ConfigRead) -> (config: Result<GongdConfig, IoError>)
        ensures
            result_view(config) == loaded(self.path@, read@),
    {
        match read {
            ConfigRead::Missing => Ok(GongdConfig::default()),
            ConfigRead::Unreadable(error) => Err(error),
            ConfigRead::Malformed(reason) => {
                let mut message = concat("failed to parse ", self.path.display().as_str());
                message.append(": ");
                message.append(reason.as_str());
                Err(IoError::new(IoErrorKind::InvalidData, message.as_str()))
            },
            ConfigRead::Parsed(config) => Ok(config),
        }
    }

    /// The steps of writing the config to the file.
    pub fn save(&self, config: &GongdConfig) -> (steps: Vec<SaveStep>)
        ensures
            seq_view(steps@) == save_steps(self.path@, config@),
    {
        let mut steps: Vec<SaveStep> = Vec::new();
        if let Some(dir) = self.path.parent() {
            steps.push(SaveStep::CreateDir(dir));
        }
        let temp = self.path.with_extension(&FsPath::from_text("json.tmp"));
        steps.push(SaveStep::Write(temp.clone(), config.clone()));
        steps.push(SaveStep::Rename(temp, self.path.clone()));
        assert(seq_view(steps@) =~= save_steps(self.path@, config@));
        steps
    }

    /// The directory to watch for changes of the file.
    pub fn watch_dir(&self) -> (dir: FsPath)
        ensures
            parent_of(self.path@) matches Some(parent) ==> dir@ == parent,
            parent_of(self.path@) is None ==> dir@ == spelled("."@),
    {
        match self.path.parent() {
            Some(dir) => dir,
            None => FsPath::from_text("."),
        }
    }
}

proof fn lemma_stem_end(name: Seq<u8>, k: int)
    requires
        0 <= k < name.len(),
    ensures
        0 < stem_end(name, k) <= name.len(),
        forall|m: int| stem_end(name, k) < m <= k ==> name[m] != DOT,
        stem_end(name, k) > k ==> stem_end(name, k) == name.len() && forall|m: int|
            0 < m <= k ==> name[m] != DOT,
    decreases k,
{
    if k > 0 && name[k] != DOT {
        lemma_stem_end(name, k - 1);
    }
}

proof fn lemma_components_have_no_slash(s: Seq<u8>, k: int)
    requires
        0 <= k < components(s).len(),
        components(s)[k] != seq![SLASH],
    ensures
        components(s)[k].len() > 0,
        !components(s)[k].contains(SLASH),
{
    let i: int = if is_absolute(s) { 1 } else { 0 };
    lemma_spans_from(s, i);
    if is_absolute(s) && k == 0 {
        assert(components(s)[0] =~= seq![SLASH]);
    } else {
        let h: int = k - i;
        let q = spans_from(s, i)[h];
        assert(spans(s)[k] == q);
        let c = components(s)[k];
        if c.contains(SLASH) {
            let m = choose|m: int| 0 <= m < c.len() && c[m] == SLASH;
            assert(s[q.0 + m] == SLASH);
        }
    }
}

/// The config file is never written in place: what is written is another file in the
/// same directory, which then takes its place.
pub proof fn law_config_is_replaced_at_once(path: Seq<u8>)
    requires
        name_of(path) is Some,
    ensures
        components(temp_of(path)) != components(path),
        components(temp_of(path)).drop_last() == components(path).drop_last(),
{
    let n = components(path).len() as int;
    let name = name_of(path)->0;
    lemma_spans(path);
    lemma_components_have_no_slash(path, n - 1);
    let last = name.len() - 1;
    lemma_stem_end(name, last);
    let stem = stem_end(name, last);
    let ext = spelled("json.tmp"@);
    reveal_strlit("json.tmp");
    is_ascii_chars_encode_utf8("json.tmp"@);
    assert(ext.len() == 8);
    assert(ext[4] == DOT);
    let fresh = name.take(stem).push(DOT) + ext;
    let a = spans(path).last().0;
    assert(name == path.subrange(a, spans(path).last().1));
    assert(temp_of(path) =~= path.take(a) + fresh) by {
        assert(path.take(a + stem) =~= path.take(a) + name.take(stem));
    }
    assert(!fresh.contains(SLASH)) by {
        if fresh.contains(SLASH) {
            let m = choose|m: int| 0 <= m < fresh.len() && fresh[m] == SLASH;
            if m < stem {
                assert(name[m] == SLASH);
                assert(name.contains(name[m]));
            } else if m > stem {
                assert(ext[m - stem - 1] == SLASH);
            }
        }
    }
    assert(fresh.len() > 1);
    lemma_last_replaced(path, fresh);
    assert(components(temp_of(path)).last() == fresh);
    if fresh == name {
        assert(name[stem + 5] == ext[4]);
    }
    assert(components(temp_of(path)).drop_last() =~= components(path).drop_last());
}

/// The temporary file is the only file that is written, the config given is what is
/// written to it, and the config file changes by the last step alone.
pub proof fn law_save_ends_with_the_config(path: Seq<u8>, config: Seq<Seq<u8>>)
    ensures
        save_steps(path, config).last() == SaveStepView::Rename(temp_of(path), path),
        save_steps(path, config).contains(SaveStepView::Write(temp_of(path), config)),
        forall|i: int|
            0 <= i < save_steps(path, config).len() ==> ((#[trigger] save_steps(
                path,
                config,
            )[i]) is Write ==> save_steps(path, config)[i] == SaveStepView::Write(
                temp_of(path),
                config,
            )),
        forall|i: int|
            0 <= i < save_steps(path, config).len() - 1 ==> !((#[trigger] save_steps(
                path,
                config,
            )[i]) is Rename),
{
    let steps = save_steps(path, config);
    assert(steps[steps.len() - 2] == SaveStepView::Write(temp_of(path), config));
}

/// The config files on a disk, each under the components of its path.
pub type Disk = Map<Seq<Seq<u8>>, Seq<Seq<u8>>>;

/// The disk once the step was made.
pub open spec fn after_step(disk: Disk, step: SaveStepView) -> Disk {
    match step {
        SaveStepView::CreateDir(_) => disk,
        SaveStepView::Write(file, config) => disk.insert(components(file), config),
        SaveStepView::Rename(from, to) => disk.remove(components(from)).insert(
            components(to),
            disk[components(from)],
        ),
    }
}

/// The disk once the steps were made, in order.
pub open spec fn after_steps(disk: Disk, steps: Seq<SaveStepView>) -> Disk
    decreases steps.len(),
{
    if steps.len() == 0 {
        disk
    } else {
        after_step(after_steps(disk, steps.drop_last()), steps.last())
    }
}

/// What is read of the config file at a path.
pub open spec fn read_at(disk: Disk, path: Seq<u8>) -> ConfigReadView {
    if disk.dom().contains(components(path)) {
        ConfigReadView::Parsed(disk[components(path)])
    } else {
        ConfigReadView::Missing
    }
}

/// The config that was saved is loaded again, whatever the file held before: the same
/// paths in the same order and spelling. No other file is changed but the temporary one,
/// and that is gone.
pub proof fn law_saved_config_is_loaded(
    path: Seq<u8>,
    config: Seq<Seq<u8>>,
    disk: Disk,
    other: Seq<u8>,
)
    ensures
        loaded(path, read_at(after_steps(disk, save_steps(path, config)), path)) == Ok::<
            Seq<Seq<u8>>,
            IoErrorView,
        >(config),
        components(other) != components(path) && components(other) != components(temp_of(path))
            ==> read_at(after_steps(disk, save_steps(path, config)), other) == read_at(disk, other),
        name_of(path) is Some ==> read_at(
            after_steps(disk, save_steps(path, config)),
            temp_of(path),
        ) is Missing,
{
    let steps = save_steps(path, config);
    let rename = steps.drop_last();
    let write = rename.drop_last();
    assert(steps.last() == SaveStepView::Rename(temp_of(path), path));
    assert(rename.last() == SaveStepView::Write(temp_of(path), config));
    assert(after_steps(disk, write) == disk) by {
        if write.len() > 0 {
            assert(write.last() is CreateDir);
            assert(write.drop_last() =~= Seq::empty());
            assert(after_steps(disk, write.drop_last()) == disk);
        }
    }
    assert(after_steps(disk, rename) == disk.insert(components(temp_of(path)), config));
    if name_of(path) is Some {
        law_config_is_replaced_at_once(path);
    }
}

/// What was read is the config, a missing file is one that names no folder, and what
/// failed says why; only a file that is no config is invalid data of the library's own.
pub proof fn law_config_is_what_was_read(
    path: Seq<u8>,
    folders: Seq<Seq<u8>>,
    error: IoErrorView,
    reason: Seq<char>,
)
    ensures
        loaded(path, ConfigReadView::Parsed(folders)) == Ok::<Seq<Seq<u8>>, IoErrorView>(folders),
        loaded(path, ConfigReadView::Missing) matches Ok(none) && none.len() == 0,
        loaded(path, ConfigReadView::Unreadable(error)) == Err::<Seq<Seq<u8>>, IoErrorView>(error),
        loaded(path, ConfigReadView::Malformed(reason)) matches Err(e) && e.kind
            == IoErrorKind::InvalidData && e.message == "failed to parse "@ + lossy_chars(path)
            + ": "@ + reason,
{
}

/// The directory of the config file is made before anything is written, where it has one.
pub proof fn law_directory_is_made_first(path: Seq<u8>, config: Seq<Seq<u8>>)
    ensures
        parent_of(path) matches Some(dir) ==> save_steps(path, config)[0]
            == SaveStepView::CreateDir(dir) && save_steps(path, config).len() == 3,
        parent_of(path) is None ==> save_steps(path, config).len() == 2,
{
}

} // verus!
