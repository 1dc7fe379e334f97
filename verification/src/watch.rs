//! The folders that are being watched, and the requests to change them.

use vstd::prelude::*;

use crate::components::components;
use crate::error::{IoError, IoErrorKind, IoErrorView};
use crate::config::ConfigStore;
use crate::environment::Environment;
use crate::folder::{
    existing_dir, found_view, normalize_folder_root, normalized_root, DirProbe, FolderView,
    MonitoredFolder,
};
use crate::fs_path::FsPath;
use crate::order::{law_listing_is_total, law_listing_is_transitive, listed_before};
use crate::protocol::{
    error_response, list_response, success_response, ControlResponse, ControlResponseView,
};
use crate::paths::Vars;
use crate::server::ManagerRequest;
use crate::text::{concat, lossy_chars};
use crate::views::{lemma_filter_keeps, lemma_filter_leaves, result_view, seq_view};
use crate::watch_config::{find_root, has_root, ConfigWatch, ConfiguredFolder, ConfiguredView};

verus! {

/// The message that something holds for a path.
pub open spec fn message_for(what: Seq<char>, path: Seq<u8>) -> Seq<char> {
    what + lossy_chars(path)
}

/// The first of the folders with the given root, or their number.
pub open spec fn root_index(folders: Seq<ConfiguredView>, root: Seq<u8>) -> int
    decreases folders.len(),
{
    if folders.len() == 0 || components(folders[0].root) == components(root) {
        0
    } else {
        1 + root_index(folders.skip(1), root)
    }
}

/// The configured folders with one more, unless it is among them.
pub open spec fn with_folder(folders: Seq<ConfiguredView>, folder: ConfiguredView) -> Seq<
    ConfiguredView,
> {
    if has_root(folders, folder.root) {
        folders
    } else {
        folders.push(folder)
    }
}

/// The answer to a request to watch one more folder.
pub open spec fn add_response(folders: Seq<ConfiguredView>, root: Seq<u8>) -> ControlResponseView {
    if has_root(folders, root) {
        success_response(message_for("watch already configured for "@, root))
    } else {
        success_response(message_for("watch added for "@, root))
    }
}

/// The configured folders without the first that has the given root.
pub open spec fn without_root(folders: Seq<ConfiguredView>, root: Seq<u8>) -> Seq<ConfiguredView> {
    folders.remove(root_index(folders, root))
}

/// The config to write, and the answer to give once it is written.
#[derive(Debug)]
pub struct PendingUpdate {
    pub folders: Vec<ConfiguredFolder>,
    pub response: ControlResponse,
}

fn message(what: &str, path: &FsPath) -> (text: String)
    ensures
        text@ == message_for(what@, path@),
{
    concat(what, path.display().as_str())
}

/// Adds a folder to the configured ones, unless it is among them by where it leads.
pub fn try_add_watch(folder: &ConfiguredFolder, folders: Vec<ConfiguredFolder>) -> (update:
    PendingUpdate)
    ensures
        seq_view(update.folders@) == with_folder(seq_view(folders@), folder@),
        update.response@ == add_response(seq_view(folders@), folder@.root),
{
    let mut folders = folders;
    if find_root(&folders, folder.resolved()).is_some() {
        let text = message("watch already configured for ", folder.resolved());
        let response = ControlResponse::success_message(text.as_str());
        PendingUpdate { folders, response }
    } else {
        let ghost before = folders@;
        folders.push(folder.clone());
        assert(seq_view(folders@) =~= seq_view(before).push(folder@));
        let text = message("watch added for ", folder.resolved());
        let response = ControlResponse::success_message(text.as_str());
        PendingUpdate { folders, response }
    }
}

/// Takes the folder with the given root from the configured ones; it is an error for
/// it not to be among them.
pub fn try_remove_watch(root: &FsPath, folders: Vec<ConfiguredFolder>) -> (update: Result<
    PendingUpdate,
    IoError,
>)
    ensures
        update is Ok <==> has_root(seq_view(folders@), root@),
        update matches Ok(u) ==> seq_view(u.folders@) == without_root(seq_view(folders@), root@)
            && u.response@ == success_response(message_for("watch removed for "@, root@)),
        update matches Err(e) ==> e@ == (IoErrorView {
            kind: IoErrorKind::NotFound,
            message: message_for("watch not found for "@, root@),
        }),
{
    let mut folders = folders;
    match find_root(&folders, root) {
        Some(index) => {
            let ghost before = folders@;
            proof {
                assert forall|k: int| 0 <= k < seq_view(before).len() implies #[trigger] seq_view(
                    before,
                )[k] == before[k]@ by {}
                lemma_root_index(seq_view(before), root@, index as int);
            }
            let _ = folders.remove(index);
            assert(seq_view(folders@) =~= seq_view(before).remove(index as int));
            let text = message("watch removed for ", root);
            let response = ControlResponse::success_message(text.as_str());
            Ok(PendingUpdate { folders, response })
        },
        None => {
            let text = message("watch not found for ", root);
            Err(IoError::new(IoErrorKind::NotFound, text.as_str()))
        },
    }
}

proof fn lemma_root_index(folders: Seq<ConfiguredView>, root: Seq<u8>, i: int)
    requires
        0 <= i < folders.len(),
        components(folders[i].root) == components(root),
        forall|k: int|
            0 <= k < i ==> components((#[trigger] folders[k]).root) != components(root),
    ensures
        root_index(folders, root) == i,
    decreases folders.len(),
{
    if i > 0 {
        assert(components(folders[0].root) != components(root));
        let rest = folders.skip(1);
        assert forall|k: int| 0 <= k < i - 1 implies components((#[trigger] rest[k]).root)
            != components(root) by {
            assert(rest[k] == folders[k + 1]);
        }
        lemma_root_index(rest, root, i - 1);
    }
}

/// The answer that a result amounts to.
pub open spec fn response_of(result: Result<ControlResponseView, IoErrorView>) -> ControlResponseView {
    match result {
        Ok(response) => response,
        Err(error) => error_response(error.message),
    }
}

/// The answer that a result amounts to.
pub fn respond(result: Result<ControlResponse, IoError>) -> (response: ControlResponse)
    ensures
        response@ == response_of(result_view(result)),
{
    match result {
        Ok(response) => response,
        Err(error) => ControlResponse::error(error.message.as_str()),
    }
}

/// A change of the config that a request asks for.
#[derive(Debug)]
pub enum ConfigUpdate {
    /// Name one more folder.
    Add(ConfiguredFolder),
    /// Name the folder with the root no more.
    Remove(FsPath),
}

/// A change of the config that a request asks for.
pub enum ConfigUpdateView {
    Add(ConfiguredView),
    Remove(Seq<u8>),
}

impl View for ConfigUpdate {
    type V = ConfigUpdateView;

    open spec fn view(&self) -> ConfigUpdateView {
        match self {
            ConfigUpdate::Add(folder) => ConfigUpdateView::Add(folder@),
            ConfigUpdate::Remove(root) => ConfigUpdateView::Remove(root@),
        }
    }
}

/// The config that an update makes of the configured folders, and the answer that goes
/// with it.
pub open spec fn updated(update: ConfigUpdateView, folders: Seq<ConfiguredView>) -> Result<
    (Seq<ConfiguredView>, ControlResponseView),
    IoErrorView,
> {
    match update {
        ConfigUpdateView::Add(folder) => Ok(
            (with_folder(folders, folder), add_response(folders, folder.root)),
        ),
        ConfigUpdateView::Remove(root) => if has_root(folders, root) {
            Ok(
                (
                    without_root(folders, root),
                    success_response(message_for("watch removed for "@, root)),
                ),
            )
        } else {
            Err(
                IoErrorView {
                    kind: IoErrorKind::NotFound,
                    message: message_for("watch not found for "@, root),
                },
            )
        },
    }
}

impl ConfigUpdate {
    /// The config to write for the update of the configured folders, or the answer where
    /// they could not be loaded or the update does not fit them.
    pub fn apply(self, configured: Result<Vec<ConfiguredFolder>, IoError>) -> (pending: Result<
        PendingUpdate,
        ControlResponse,
    >)
        ensures
            (match configured {
                Err(error) => pending is Err && pending->Err_0@ == error_response(error@.message),
                Ok(folders) => match updated(self@, seq_view(folders@)) {
                    Ok((after, response)) => pending is Ok && seq_view(pending->Ok_0.folders@)
                        == after && pending->Ok_0.response@ == response,
                    Err(error) => pending is Err && pending->Err_0@ == error_response(
                        error.message,
                    ),
                },
            }),
    {
        let folders = match configured {
            Ok(folders) => folders,
            Err(error) => return Err(respond(Err(error))),
        };
        match self {
            ConfigUpdate::Add(folder) => Ok(try_add_watch(&folder, folders)),
            ConfigUpdate::Remove(root) => match try_remove_watch(&root, folders) {
                Ok(pending) => Ok(pending),
                Err(error) => Err(respond(Err(error))),
            },
        }
    }
}

impl PendingUpdate {
    /// The answer once the config was to be written: the one that goes with it, or the
    /// error of writing it.
    pub fn persist_folders(self, saved: Result<(), IoError>) -> (response: ControlResponse)
        ensures
            saved is Ok ==> response == self.response,
            saved matches Err(error) ==> response@ == error_response(error@.message),
    {
        match saved {
            Ok(()) => self.response,
            Err(error) => respond(Err(error)),
        }
    }
}

/// What a request comes to before the config is looked at.
#[derive(Debug)]
pub enum RequestStep {
    /// Answer it.
    Answer(ControlResponse),
    /// Change the config.
    Update(ConfigUpdate),
}

/// What a request comes to before the config is looked at.
pub enum RequestStepView {
    Answer(ControlResponseView),
    Update(ConfigUpdateView),
}

impl View for RequestStep {
    type V = RequestStepView;

    open spec fn view(&self) -> RequestStepView {
        match self {
            RequestStep::Answer(response) => RequestStepView::Answer(response@),
            RequestStep::Update(update) => RequestStepView::Update(update@),
        }
    }
}

/// What the disk says about the path in a request.
#[derive(Debug)]
pub struct RequestProbe {
    pub dir: DirProbe,
    pub found: Option<Result<FsPath, IoError>>,
}

/// What a request comes to: a folder to watch must be an existing directory, one to
/// watch no more is named by its root.
pub open spec fn step_of(
    request: ManagerRequest,
    env: Vars,
    probe: RequestProbe,
    active: Seq<FolderView>,
) -> RequestStepView {
    match request {
        ManagerRequest::AddWatch { folder } => match existing_dir(
            folder@,
            env,
            result_view(probe.dir.canonical),
            probe.dir.is_dir,
        ) {
            Ok(root) => RequestStepView::Update(
                ConfigUpdateView::Add(ConfiguredView { original: folder@, root }),
            ),
            Err(error) => RequestStepView::Answer(error_response(error.message)),
        },
        ManagerRequest::RemoveWatch { folder } => match normalized_root(
            folder@,
            env,
            found_view(probe.found),
        ) {
            Ok(root) => RequestStepView::Update(ConfigUpdateView::Remove(root)),
            Err(error) => RequestStepView::Answer(error_response(error.message)),
        },
        ManagerRequest::ListWatches => RequestStepView::Answer(
            list_response(active.map_values(|f: FolderView| f.root)),
        ),
    }
}

/// Whether a folder with the given root is watched.
pub open spec fn is_active(active: Seq<FolderView>, root: Seq<u8>) -> bool {
    exists|i: int|
        0 <= i < active.len() && components((#[trigger] active[i]).root) == components(root)
}

/// The watched folders are listed by their roots, each once.
pub open spec fn is_listed(active: Seq<FolderView>) -> bool {
    forall|i: int, j: int|
        0 <= i < j < active.len() ==> listed_before(
            components((#[trigger] active[i]).root),
            components((#[trigger] active[j]).root),
        )
}

/// Where a folder with the given root belongs in the list.
pub open spec fn place_of(active: Seq<FolderView>, root: Seq<u8>) -> int
    decreases active.len(),
{
    if active.len() == 0 || listed_before(components(root), components(active[0].root)) {
        0
    } else {
        1 + place_of(active.skip(1), root)
    }
}

/// The watched folders without those that are not desired.
pub open spec fn retained(active: Seq<FolderView>, desired: Seq<FolderView>) -> Seq<FolderView> {
    active.filter(|f: FolderView| is_active(desired, f.root))
}

/// The watched folders with one more, unless it is among them.
pub open spec fn activated(active: Seq<FolderView>, folder: FolderView) -> Seq<FolderView> {
    if is_active(active, folder.root) {
        active
    } else {
        active.insert(place_of(active, folder.root), folder)
    }
}

/// The watched folders once those not desired were dropped and the first `n` desired
/// ones were started, as far as they were not watched and `started` says they could be.
pub open spec fn reconciled(
    active: Seq<FolderView>,
    desired: Seq<FolderView>,
    started: Seq<bool>,
    n: nat,
) -> Seq<FolderView>
    decreases n,
{
    if n == 0 {
        retained(active, desired)
    } else {
        let before = reconciled(active, desired, started, (n - 1) as nat);
        if started[n - 1] {
            activated(before, desired[n - 1])
        } else {
            before
        }
    }
}

/// The directories that are watched for a folder: its root, and in Git mode its Git
/// directory.
pub open spec fn targets_of(folder: FolderView) -> Seq<Seq<u8>> {
    match folder.git {
        Some(git) => seq![folder.root, git.git_dir],
        None => seq![folder.root],
    }
}

/// The directories that are to be watched for a folder.
pub fn watch_targets(folder: &MonitoredFolder) -> (targets: Vec<FsPath>)
    ensures
        seq_view(targets@) == targets_of(folder@),
{
    let mut targets: Vec<FsPath> = Vec::new();
    targets.push(folder.root().clone());
    if let Some(git_dir) = folder.git_dir() {
        targets.push(git_dir.clone());
    }
    assert(seq_view(targets@) =~= targets_of(folder@));
    targets
}

/// Whether one of the folders has the given root.
fn any_has_root(folders: &Vec<MonitoredFolder>, root: &FsPath) -> (yes: bool)
    ensures
        yes == is_active(seq_view(folders@), root@),
{
    let mut i: usize = 0;
    while i < folders.len()
        invariant
            i <= folders@.len(),
            forall|k: int|
                0 <= k < i ==> components((#[trigger] seq_view(folders@)[k]).root) != components(
                    root@,
                ),
        decreases folders@.len() - i,
    {
        assert(seq_view(folders@)[i as int] == folders@[i as int]@);
        if *folders[i].root() == *root {
            return true;
        }
        i += 1;
    }
    false
}

/// The folders that are being watched, and the config that decides about them.
#[derive(Debug)]
pub struct WatchManager {
    watchers: Vec<MonitoredFolder>,
    config_watch: ConfigWatch,
}

impl View for WatchManager {
    type V = Seq<FolderView>;

    closed spec fn view(&self) -> Seq<FolderView> {
        seq_view(self.watchers@)
    }
}

impl WatchManager {
    #[verifier::type_invariant]
    spec fn inv(self) -> bool {
        is_listed(self@)
    }

    /// The config that decides about the watched folders.
    pub closed spec fn config(&self) -> ConfigWatch {
        self.config_watch
    }

    /// The config that decides about the watched folders.
    pub fn config_watch(&self) -> (config: &ConfigWatch)
        ensures
            *config == self.config(),
    {
        &self.config_watch
    }

    /// Nothing is watched yet.
    pub fn new(startup_cli_inputs: Vec<FsPath>, config_store: ConfigStore) -> (manager:
        WatchManager)
        ensures
            manager@ == Seq::<FolderView>::empty(),
            is_listed(manager@),
            manager.config().startup_cli_inputs == startup_cli_inputs,
            manager.config().store == config_store,
    {
        let config_watch = ConfigWatch::new(config_store, startup_cli_inputs);
        let manager = WatchManager { watchers: Vec::new(), config_watch };
        assert(manager@ =~= Seq::empty());
        manager
    }

    /// Watches what is desired from now on: what is not desired is dropped, and of the
    /// desired folders those are added that were not watched and, as `started` says of
    /// each, could be started.
    pub fn reconcile_watches(&mut self, desired: &Vec<MonitoredFolder>, started: &Vec<bool>)
        requires
            started@.len() == desired@.len(),
        ensures
            final(self)@ == reconciled(old(self)@, seq_view(desired@), started@, desired@.len()),
            is_listed(final(self)@),
            final(self).config() == old(self).config(),
    {
        let ghost all = self@;
        self.retain_desired(desired);
        let mut i: usize = 0;
        while i < desired.len()
            invariant
                i <= desired@.len() == started@.len(),
                self@ == reconciled(all, seq_view(desired@), started@, i as nat),
                self.config() == old(self).config(),
            decreases desired@.len() - i,
        {
            assert(seq_view(desired@)[i as int] == desired@[i as int]@);
            if started[i] {
                self.activate(desired[i].clone());
            }
            i += 1;
        }
        proof {
            use_type_invariant(&*self);
        }
    }

    /// Stops watching what is not desired.
    fn retain_desired(&mut self, desired: &Vec<MonitoredFolder>)
        ensures
            final(self)@ == retained(old(self)@, seq_view(desired@)),
            final(self).config() == old(self).config(),
    {
        let ghost keep = |f: FolderView| is_active(seq_view(desired@), f.root);
        let ghost all = self@;
        proof {
            use_type_invariant(&*self);
        }
        let mut rest: Vec<MonitoredFolder> = Vec::new();
        std::mem::swap(&mut self.watchers, &mut rest);
        let mut kept: Vec<MonitoredFolder> = Vec::new();
        proof {
            reveal(Seq::filter);
            assert(seq_view(kept@) =~= all.take(0).filter(keep));
        }
        for folder in it: rest
            invariant
                all == seq_view(it.seq()),
                keep == (|f: FolderView| is_active(seq_view(desired@), f.root)),
                seq_view(kept@) == all.take(it.index()).filter(keep),
        {
            proof {
                reveal(Seq::filter);
                assert(all.take(it.index() + 1).drop_last() =~= all.take(it.index()));
                assert(all.take(it.index() + 1).last() == folder@);
            }
            let ghost before = kept@;
            if any_has_root(desired, folder.root()) {
                kept.push(folder);
                assert(seq_view(kept@) =~= seq_view(before).push(folder@));
            }
        }
        assert(all.take(all.len() as int) =~= all);
        proof {
            lemma_filter_keeps_listed(all, keep);
        }
        self.watchers = kept;
    }

    /// The directories to start watching for a folder, where it is not watched yet.
    pub fn ensure_active(&self, folder: &MonitoredFolder) -> (targets: Option<Vec<FsPath>>)
        ensures
            targets is None <==> is_active(self@, folder@.root),
            targets matches Some(t) ==> seq_view(t@) == targets_of(folder@),
    {
        if any_has_root(&self.watchers, folder.root()) {
            None
        } else {
            Some(watch_targets(folder))
        }
    }

    /// Puts a folder whose watching was started among those watched.
    fn activate(&mut self, folder: MonitoredFolder)
        ensures
            final(self)@ == activated(old(self)@, folder@),
            final(self).config() == old(self).config(),
    {
        if any_has_root(&self.watchers, folder.root()) {
            return ;
        }
        let ghost all = self@;
        proof {
            use_type_invariant(&*self);
        }
        let mut i: usize = 0;
        assert(all.skip(0) =~= all);
        while i < self.watchers.len() && !folder.root().is_before(self.watchers[i].root())
            invariant
                i <= self.watchers@.len(),
                all == seq_view(self.watchers@),
                place_of(all, folder@.root) == i + place_of(all.skip(i as int), folder@.root),
            decreases self.watchers@.len() - i,
        {
            assert(all.skip(i as int)[0] == self.watchers@[i as int]@);
            assert(all.skip(i as int).skip(1) =~= all.skip(i + 1));
            i += 1;
        }
        proof {
            if i < all.len() {
                assert(all.skip(i as int)[0] == self.watchers@[i as int]@);
            }
            lemma_place_keeps_listed(all, folder@);
        }
        let mut watchers: Vec<MonitoredFolder> = Vec::new();
        std::mem::swap(&mut self.watchers, &mut watchers);
        let ghost before = watchers@;
        watchers.insert(i, folder);
        assert(seq_view(watchers@) =~= seq_view(before).insert(i as int, folder@));
        self.watchers = watchers;
    }

    /// The roots of the watched folders, in order.
    fn roots(&self) -> (roots: Vec<FsPath>)
        ensures
            seq_view(roots@) == self@.map_values(|f: FolderView| f.root),
    {
        let mut roots: Vec<FsPath> = Vec::new();
        let mut i: usize = 0;
        while i < self.watchers.len()
            invariant
                i <= self.watchers@.len(),
                roots@.len() == i,
                forall|k: int|
                    0 <= k < i ==> (#[trigger] roots@[k])@ == self.watchers@[k]@.root,
            decreases self.watchers@.len() - i,
        {
            roots.push(self.watchers[i].root().clone());
            i += 1;
        }
        assert(seq_view(roots@) =~= self@.map_values(|f: FolderView| f.root));
        roots
    }

    /// The answer that lists the watched folders, in order and each once.
    pub fn list_watches(&self) -> (response: ControlResponse)
        ensures
            response@ == list_response(self@.map_values(|f: FolderView| f.root)),
            is_listed(self@),
    {
        proof {
            use_type_invariant(self);
        }
        ControlResponse::list(&self.roots())
    }

    /// What a request comes to before the config is looked at; `probe` is what the disk
    /// says about the path in it.
    pub fn handle_request(
        &self,
        request: ManagerRequest,
        env: &Environment,
        probe: &RequestProbe,
    ) -> (step: RequestStep)
        ensures
            step@ == step_of(request, env@, *probe, self@),
    {
        match request {
            ManagerRequest::AddWatch { folder } => match ConfiguredFolder::from_path(
                &folder,
                env,
                &probe.dir,
            ) {
                Ok(folder) => RequestStep::Update(ConfigUpdate::Add(folder)),
                Err(error) => RequestStep::Answer(respond(Err(error))),
            },
            ManagerRequest::RemoveWatch { folder } => match normalize_folder_root(
                &folder,
                env,
                &probe.found,
            ) {
                Ok(root) => RequestStep::Update(ConfigUpdate::Remove(root)),
                Err(error) => RequestStep::Answer(respond(Err(error))),
            },
            ManagerRequest::ListWatches => RequestStep::Answer(self.list_watches()),
        }
    }

    /// The watched folders, in order and each once, for those who translate reports.
    pub fn sync_shared_folders(&self) -> (folders: Vec<MonitoredFolder>)
        ensures
            seq_view(folders@) == self@,
            is_listed(seq_view(folders@)),
    {
        proof {
            use_type_invariant(self);
        }
        let mut folders: Vec<MonitoredFolder> = Vec::new();
        let mut i: usize = 0;
        while i < self.watchers.len()
            invariant
                i <= self.watchers@.len(),
                folders@.len() == i,
                forall|k: int| 0 <= k < i ==> (#[trigger] folders@[k])@ == self.watchers@[k]@,
            decreases self.watchers@.len() - i,
        {
            folders.push(self.watchers[i].clone());
            i += 1;
        }
        assert(seq_view(folders@) =~= self@);
        folders
    }
}

proof fn lemma_filter_keeps_listed(active: Seq<FolderView>, keep: spec_fn(FolderView) -> bool)
    requires
        is_listed(active),
    ensures
        is_listed(active.filter(keep)),
    decreases active.len(),
{
    reveal(Seq::filter);
    if active.len() > 0 {
        let less = active.drop_last();
        assert(is_listed(less)) by {
            assert(forall|i: int| 0 <= i < less.len() ==> #[trigger] less[i] == active[i]);
        }
        lemma_filter_keeps_listed(less, keep);
        lemma_filter_leaves(less, keep);
        let a = less.filter(keep);
        let b = active.filter(keep);
        assert forall|i: int, j: int| 0 <= i < j < b.len() implies listed_before(
            components((#[trigger] b[i]).root),
            components((#[trigger] b[j]).root),
        ) by {
            assert(b[i] == a[i]);
            if j < a.len() {
                assert(b[j] == a[j]);
            } else {
                assert(less.contains(a[i]));
                let k = choose|k: int| 0 <= k < less.len() && less[k] == a[i];
                assert(active[k] == a[i]);
                assert(b[j] == active[active.len() - 1]);
            }
        }
    }
}

proof fn lemma_place(active: Seq<FolderView>, root: Seq<u8>)
    requires
        is_listed(active),
        !is_active(active, root),
    ensures
        0 <= place_of(active, root) <= active.len(),
        forall|i: int|
            0 <= i < place_of(active, root) ==> listed_before(
                components((#[trigger] active[i]).root),
                components(root),
            ),
        forall|i: int|
            place_of(active, root) <= i < active.len() ==> listed_before(
                components(root),
                components((#[trigger] active[i]).root),
            ),
    decreases active.len(),
{
    if active.len() > 0 {
        let first = components(active[0].root);
        let new = components(root);
        assert(first != new);
        law_listing_is_total(first, new);
        if listed_before(new, first) {
            assert forall|i: int| 0 <= i < active.len() implies listed_before(
                new,
                components((#[trigger] active[i]).root),
            ) by {
                if i > 0 {
                    law_listing_is_transitive(new, first, components(active[i].root));
                }
            }
        } else {
            let rest = active.skip(1);
            assert(forall|i: int| 0 <= i < rest.len() ==> #[trigger] rest[i] == active[i + 1]);
            assert(is_listed(rest));
            assert(!is_active(rest, root)) by {
                if is_active(rest, root) {
                    let k = choose|k: int|
                        0 <= k < rest.len() && components((#[trigger] rest[k]).root) == components(
                            root,
                        );
                    assert(components(active[k + 1].root) == components(root));
                }
            }
            lemma_place(rest, root);
            assert forall|i: int| 0 <= i < place_of(active, root) implies listed_before(
                components((#[trigger] active[i]).root),
                new,
            ) by {
                if i > 0 {
                    assert(rest[i - 1] == active[i]);
                }
            }
            assert forall|i: int| place_of(active, root) <= i < active.len() implies listed_before(
                new,
                components((#[trigger] active[i]).root),
            ) by {
                assert(rest[i - 1] == active[i]);
            }
        }
    }
}

proof fn lemma_place_keeps_listed(active: Seq<FolderView>, folder: FolderView)
    requires
        is_listed(active),
    ensures
        is_listed(activated(active, folder)),
        !is_active(active, folder.root) ==> 0 <= place_of(active, folder.root) <= active.len(),
{
    if !is_active(active, folder.root) {
        lemma_place(active, folder.root);
        let p = place_of(active, folder.root);
        let b = active.insert(p, folder);
        assert forall|i: int, j: int| 0 <= i < j < b.len() implies listed_before(
            components((#[trigger] b[i]).root),
            components((#[trigger] b[j]).root),
        ) by {
            let x: int = if i < p { i } else { i - 1 };
            let y: int = if j < p { j } else { j - 1 };
            if i != p {
                assert(b[i] == active[x]);
            }
            if j != p {
                assert(b[j] == active[y]);
            }
        }
    }
}

/// Putting a folder among those watched keeps the others and adds its root.
proof fn lemma_activated(active: Seq<FolderView>, folder: FolderView)
    requires
        is_listed(active),
    ensures
        forall|i: int|
            0 <= i < active.len() ==> activated(active, folder).contains(#[trigger] active[i]),
        forall|root: Seq<u8>|
            #![trigger is_active(activated(active, folder), root)]
            is_active(activated(active, folder), root) <==> is_active(active, root) || components(
                folder.root,
            ) == components(root),
{
    if is_active(active, folder.root) {
        assert forall|root: Seq<u8>| components(folder.root) == components(root) implies is_active(
            active,
            root,
        ) by {
            let k = choose|k: int|
                0 <= k < active.len() && components((#[trigger] active[k]).root) == components(
                    folder.root,
                );
            assert(components(active[k].root) == components(root));
        }
    } else {
        lemma_place(active, folder.root);
        let p = place_of(active, folder.root);
        let b = active.insert(p, folder);
        assert(b[p] == folder);
        assert forall|i: int| 0 <= i < active.len() implies b.contains(#[trigger] active[i]) by {
            let j: int = if i < p { i } else { i + 1 };
            assert(b[j] == active[i]);
        }
        assert forall|root: Seq<u8>|
            #![trigger is_active(b, root)]
            is_active(b, root) <==> is_active(active, root) || components(folder.root)
                == components(root) by {
            if is_active(b, root) {
                let k = choose|k: int|
                    0 <= k < b.len() && components((#[trigger] b[k]).root) == components(root);
                if k != p {
                    let i: int = if k < p { k } else { k - 1 };
                    assert(active[i] == b[k]);
                }
            }
            if is_active(active, root) {
                let k = choose|k: int|
                    0 <= k < active.len() && components((#[trigger] active[k]).root) == components(
                        root,
                    );
                let j: int = if k < p { k } else { k + 1 };
                assert(b[j] == active[k]);
                assert(components(b[j].root) == components(root));
            }
            if components(folder.root) == components(root) {
                assert(components(b[p].root) == components(root));
            }
        }
    }
}

/// The watched folders stay listed by their roots, each once, whatever was started.
pub proof fn law_reconciling_keeps_the_listing(
    active: Seq<FolderView>,
    desired: Seq<FolderView>,
    started: Seq<bool>,
    n: nat,
)
    requires
        is_listed(active),
    ensures
        is_listed(reconciled(active, desired, started, n)),
    decreases n,
{
    if n == 0 {
        lemma_filter_keeps_listed(active, |f: FolderView| is_active(desired, f.root));
    } else {
        law_reconciling_keeps_the_listing(active, desired, started, (n - 1) as nat);
        lemma_place_keeps_listed(
            reconciled(active, desired, started, (n - 1) as nat),
            desired[n - 1],
        );
    }
}

/// Whether one of the first `n` folders has the root and could be started.
pub open spec fn is_started(
    desired: Seq<FolderView>,
    started: Seq<bool>,
    n: nat,
    root: Seq<u8>,
) -> bool {
    exists|i: int|
        0 <= i < n && started[i] && components((#[trigger] desired[i]).root) == components(root)
}

/// What is watched was watched before and is still desired, or is desired and was
/// started.
pub proof fn law_only_kept_and_started_folders_are_watched(
    active: Seq<FolderView>,
    desired: Seq<FolderView>,
    started: Seq<bool>,
    n: nat,
    root: Seq<u8>,
)
    requires
        is_listed(active),
        n <= desired.len(),
    ensures
        is_active(reconciled(active, desired, started, n), root) <==> (is_active(active, root)
            && is_active(desired, root)) || is_started(desired, started, n, root),
    decreases n,
{
    let after = reconciled(active, desired, started, n);
    if n == 0 {
        let keep = |f: FolderView| is_active(desired, f.root);
        lemma_filter_leaves(active, keep);
        lemma_filter_keeps(active, keep);
        if is_active(after, root) {
            let k = choose|k: int|
                0 <= k < after.len() && components((#[trigger] after[k]).root) == components(root);
            assert(keep(after[k]));
            let j = choose|j: int| 0 <= j < active.len() && active[j] == after[k];
            assert(components(active[j].root) == components(root));
            let i = choose|i: int|
                0 <= i < desired.len() && components((#[trigger] desired[i]).root) == components(
                    after[k].root,
                );
            assert(components(desired[i].root) == components(root));
        }
        if is_active(active, root) && is_active(desired, root) {
            let j = choose|j: int|
                0 <= j < active.len() && components((#[trigger] active[j]).root) == components(root);
            let i = choose|i: int|
                0 <= i < desired.len() && components((#[trigger] desired[i]).root) == components(
                    root,
                );
            assert(components(desired[i].root) == components(active[j].root));
            assert(keep(active[j]));
            let k = choose|k: int| 0 <= k < after.len() && after[k] == active[j];
            assert(components(after[k].root) == components(root));
        }
    } else {
        let m = (n - 1) as nat;
        let before = reconciled(active, desired, started, m);
        law_only_kept_and_started_folders_are_watched(active, desired, started, m, root);
        law_reconciling_keeps_the_listing(active, desired, started, m);
        lemma_activated(before, desired[n - 1]);
        if is_started(desired, started, m, root) {
            let i = choose|i: int|
                0 <= i < m && started[i] && components((#[trigger] desired[i]).root) == components(
                    root,
                );
            assert(is_started(desired, started, n, root));
        }
        if is_started(desired, started, n, root) && !is_started(desired, started, m, root) {
            let i = choose|i: int|
                0 <= i < n && started[i] && components((#[trigger] desired[i]).root) == components(
                    root,
                );
            assert(i == n - 1);
        }
    }
}

/// Nothing is watched that is not desired.
pub proof fn law_only_desired_folders_are_watched(
    active: Seq<FolderView>,
    desired: Seq<FolderView>,
    started: Seq<bool>,
    n: nat,
    root: Seq<u8>,
)
    requires
        is_listed(active),
        n <= desired.len(),
        is_active(reconciled(active, desired, started, n), root),
    ensures
        is_active(desired, root),
{
    law_only_kept_and_started_folders_are_watched(active, desired, started, n, root);
}

/// A folder that is watched and still desired goes on being watched as it was.
pub proof fn law_watched_folders_are_not_restarted(
    active: Seq<FolderView>,
    desired: Seq<FolderView>,
    started: Seq<bool>,
    n: nat,
    folder: FolderView,
)
    requires
        is_listed(active),
        active.contains(folder),
        is_active(desired, folder.root),
    ensures
        reconciled(active, desired, started, n).contains(folder),
    decreases n,
{
    if n == 0 {
        let keep = |f: FolderView| is_active(desired, f.root);
        lemma_filter_keeps(active, keep);
        let k = choose|k: int| 0 <= k < active.len() && active[k] == folder;
        assert(keep(active[k]));
    } else {
        let before = reconciled(active, desired, started, (n - 1) as nat);
        law_watched_folders_are_not_restarted(active, desired, started, (n - 1) as nat, folder);
        law_reconciling_keeps_the_listing(active, desired, started, (n - 1) as nat);
        lemma_activated(before, desired[n - 1]);
        let k = choose|k: int| 0 <= k < before.len() && before[k] == folder;
        assert(activated(before, desired[n - 1]).contains(before[k]));
    }
}

/// Where nothing is desired nothing is watched any more.
pub proof fn law_nothing_desired_stops_all_watches(active: Seq<FolderView>, started: Seq<bool>)
    ensures
        reconciled(active, Seq::empty(), started, 0) == Seq::<FolderView>::empty(),
{
    let desired = Seq::<FolderView>::empty();
    let keep = |f: FolderView| is_active(desired, f.root);
    lemma_filter_leaves(active, keep);
    let left = retained(active, desired);
    if left.len() > 0 {
        assert(keep(left[0]));
    }
    assert(left =~= Seq::empty());
}

/// Every desired folder that could be started is watched.
pub proof fn law_started_folders_are_watched(
    active: Seq<FolderView>,
    desired: Seq<FolderView>,
    started: Seq<bool>,
    n: nat,
    i: int,
)
    requires
        is_listed(active),
        0 <= i < n <= desired.len(),
        started[i],
    ensures
        is_active(reconciled(active, desired, started, n), desired[i].root),
{
    assert(is_started(desired, started, n, desired[i].root));
    law_only_kept_and_started_folders_are_watched(active, desired, started, n, desired[i].root);
}

/// No two of the configured folders lead to the same directory.
pub open spec fn roots_are_distinct(folders: Seq<ConfiguredView>) -> bool {
    forall|i: int, j: int|
        0 <= i < j < folders.len() ==> components((#[trigger] folders[i]).root) != components(
            (#[trigger] folders[j]).root,
        )
}

proof fn lemma_found_root(folders: Seq<ConfiguredView>, root: Seq<u8>)
    ensures
        0 <= root_index(folders, root) <= folders.len(),
        has_root(folders, root) <==> root_index(folders, root) < folders.len(),
        has_root(folders, root) ==> components(folders[root_index(folders, root)].root)
            == components(root),
    decreases folders.len(),
{
    if folders.len() > 0 {
        let rest = folders.skip(1);
        lemma_found_root(rest, root);
        if components(folders[0].root) != components(root) {
            if has_root(rest, root) {
                assert(rest[root_index(rest, root)] == folders[root_index(rest, root) + 1]);
            }
            if has_root(folders, root) {
                let k = choose|k: int|
                    0 <= k < folders.len() && components((#[trigger] folders[k]).root) == components(
                        root,
                    );
                assert(rest[k - 1] == folders[k]);
            }
        }
    }
}

/// Adding and removing folders keeps the configured ones distinct; what was added is
/// configured, and what was removed is not.
pub proof fn law_updates_keep_roots_distinct(folders: Seq<ConfiguredView>, folder: ConfiguredView)
    requires
        roots_are_distinct(folders),
    ensures
        roots_are_distinct(with_folder(folders, folder)),
        has_root(with_folder(folders, folder), folder.root),
        has_root(folders, folder.root) ==> roots_are_distinct(without_root(folders, folder.root))
            && !has_root(without_root(folders, folder.root), folder.root),
{
    let root = folder.root;
    let b = with_folder(folders, folder);
    if !has_root(folders, root) {
        assert(b[b.len() - 1] == folder);
        assert forall|i: int, j: int| 0 <= i < j < b.len() implies components(
            (#[trigger] b[i]).root,
        ) != components((#[trigger] b[j]).root) by {
            assert(b[i] == folders[i]);
            if j < folders.len() {
                assert(b[j] == folders[j]);
            }
        }
        assert(components(b[b.len() - 1].root) == components(root));
    } else {
        lemma_found_root(folders, root);
        let p = root_index(folders, root);
        let c = without_root(folders, root);
        assert forall|i: int, j: int| 0 <= i < j < c.len() implies components(
            (#[trigger] c[i]).root,
        ) != components((#[trigger] c[j]).root) by {
            let x: int = if i < p { i } else { i + 1 };
            let y: int = if j < p { j } else { j + 1 };
            assert(c[i] == folders[x] && c[j] == folders[y]);
        }
        assert forall|i: int| 0 <= i < c.len() implies components((#[trigger] c[i]).root)
            != components(root) by {
            let x: int = if i < p { i } else { i + 1 };
            assert(c[i] == folders[x]);
            if x < p {
                assert(components(folders[x].root) != components(folders[p].root));
            } else {
                assert(components(folders[p].root) != components(folders[x].root));
            }
        }
    }
}

/// Removing a folder that was just added gives back the configured ones as they were.
pub proof fn law_removing_undoes_adding(folders: Seq<ConfiguredView>, folder: ConfiguredView)
    requires
        !has_root(folders, folder.root),
    ensures
        has_root(with_folder(folders, folder), folder.root),
        without_root(with_folder(folders, folder), folder.root) == folders,
{
    let b = with_folder(folders, folder);
    let n = folders.len() as int;
    assert(b[n] == folder);
    assert forall|k: int| 0 <= k < n implies components((#[trigger] b[k]).root) != components(
        folder.root,
    ) by {
        assert(b[k] == folders[k]);
    }
    lemma_root_index(b, folder.root, n);
    assert(components(b[n].root) == components(folder.root));
    assert(b.remove(n) =~= folders);
}

/// Adding a folder a second time, spelled in whatever way, changes nothing and is
/// answered that it is configured already.
pub proof fn law_adding_twice_changes_nothing(
    folders: Seq<ConfiguredView>,
    folder: ConfiguredView,
    again: ConfiguredView,
)
    requires
        components(folder.root) == components(again.root),
    ensures
        with_folder(with_folder(folders, folder), again) == with_folder(folders, folder),
        add_response(with_folder(folders, folder), again.root) == success_response(
            message_for("watch already configured for "@, again.root),
        ),
{
    let b = with_folder(folders, folder);
    if has_root(folders, folder.root) {
        let k = choose|k: int|
            0 <= k < folders.len() && components((#[trigger] folders[k]).root) == components(
                folder.root,
            );
        assert(components(b[k].root) == components(again.root));
    } else {
        assert(components(b[b.len() - 1].root) == components(again.root));
    }
}

/// A request that is refused before the config is looked at is answered with an error,
/// and so is an update that does not fit the config; one that fits is answered with a
/// message.
pub proof fn law_refusals_are_answered_with_errors(
    request: ManagerRequest,
    env: Vars,
    probe: RequestProbe,
    active: Seq<FolderView>,
    folders: Seq<ConfiguredView>,
)
    requires
        !(request is ListWatches),
    ensures
        step_of(request, env, probe, active) matches RequestStepView::Answer(response)
            ==> !response.ok && response.error is Some && response.message is None,
        step_of(request, env, probe, active) matches RequestStepView::Update(update) ==> (
        match updated(update, folders) {
            Ok((_, response)) => response.ok && response.message is Some && response.error is None,
            Err(error) => !response_of(Err(error)).ok && response_of(Err(error)).error == Some(
                error.message,
            ),
        }),
{
}

/// Adding a folder leaves those configured as they are and in their order, and puts the
/// new one, as it is spelled and where it leads, behind them, unless one leads to the same
/// directory.
pub proof fn law_added_folder_comes_last(folders: Seq<ConfiguredView>, folder: ConfiguredView)
    ensures
        (forall|i: int|
            0 <= i < folders.len() ==> components((#[trigger] folders[i]).root) != components(
                folder.root,
            )) ==> with_folder(folders, folder) == folders + seq![folder] && add_response(
            folders,
            folder.root,
        ).message == Some("watch added for "@ + lossy_chars(folder.root)),
        (exists|i: int|
            0 <= i < folders.len() && components((#[trigger] folders[i]).root) == components(
                folder.root,
            )) ==> with_folder(folders, folder) == folders && add_response(
            folders,
            folder.root,
        ).message == Some("watch already configured for "@ + lossy_chars(folder.root)),
        add_response(folders, folder.root).ok,
{
    assert(folders.push(folder) =~= folders + seq![folder]);
}

/// Removing a root takes the first folder that leads there, and leaves the others as they
/// are and in their order.
pub proof fn law_removed_folder_is_the_first(
    before: Seq<ConfiguredView>,
    folder: ConfiguredView,
    behind: Seq<ConfiguredView>,
    root: Seq<u8>,
)
    requires
        components(folder.root) == components(root),
        forall|i: int|
            0 <= i < before.len() ==> components((#[trigger] before[i]).root) != components(root),
    ensures
        has_root(before + seq![folder] + behind, root),
        without_root(before + seq![folder] + behind, root) == before + behind,
        updated(ConfigUpdateView::Remove(root), before + seq![folder] + behind) matches Ok((
            left,
            response,
        )) && left == before + behind && response.ok && response.message == Some(
            "watch removed for "@ + lossy_chars(root),
        ),
{
    let all = before + seq![folder] + behind;
    let n = before.len() as int;
    assert(all[n] == folder);
    assert forall|k: int| 0 <= k < n implies components((#[trigger] all[k]).root) != components(
        root,
    ) by {
        assert(all[k] == before[k]);
    }
    lemma_root_index(all, root, n);
    assert(all.remove(n) =~= before + behind);
}

/// Removing a root that no folder leads to is an error, and says so.
pub proof fn law_missing_roots_cannot_be_removed(folders: Seq<ConfiguredView>, root: Seq<u8>)
    requires
        forall|i: int|
            0 <= i < folders.len() ==> components((#[trigger] folders[i]).root) != components(root),
    ensures
        updated(ConfigUpdateView::Remove(root), folders) matches Err(error) && error.kind
            == IoErrorKind::NotFound && error.message == "watch not found for "@ + lossy_chars(
            root,
        ),
{
}

/// Adding goes through for every config.
pub proof fn law_directories_can_be_added(folders: Seq<ConfiguredView>, folder: ConfiguredView)
    ensures
        updated(ConfigUpdateView::Add(folder), folders) == Ok::<
            (Seq<ConfiguredView>, ControlResponseView),
            IoErrorView,
        >((with_folder(folders, folder), add_response(folders, folder.root))),
{
}

/// What each request comes to: one to watch a folder adds it as it is spelled, where it
/// leads to a directory; one to watch a folder no more removes the root that it names; one
/// to list answers with the roots of all watched folders, in order.
pub proof fn law_requests_come_to_what_they_ask(
    folder: FsPath,
    env: Vars,
    probe: RequestProbe,
    active: Seq<FolderView>,
)
    ensures
        (match existing_dir(
            folder@,
            env,
            result_view(probe.dir.canonical),
            probe.dir.is_dir,
        ) {
            Ok(root) => step_of(ManagerRequest::AddWatch { folder }, env, probe, active)
                == RequestStepView::Update(
                ConfigUpdateView::Add(ConfiguredView { original: folder@, root }),
            ),
            Err(error) => step_of(ManagerRequest::AddWatch { folder }, env, probe, active) matches
                RequestStepView::Answer(response) && !response.ok && response.error == Some(
                error.message,
            ),
        }),
        (match normalized_root(folder@, env, found_view(probe.found)) {
            Ok(root) => step_of(ManagerRequest::RemoveWatch { folder }, env, probe, active)
                == RequestStepView::Update(ConfigUpdateView::Remove(root)),
            Err(error) => step_of(ManagerRequest::RemoveWatch { folder }, env, probe, active)
                matches RequestStepView::Answer(response) && !response.ok && response.error == Some(
                error.message,
            ),
        }),
        step_of(ManagerRequest::ListWatches, env, probe, active) matches RequestStepView::Answer(
            response,
        ) && response.ok && response.error is None && (response.folders matches Some(listed)
            && listed.len() == active.len() && forall|i: int|
            0 <= i < active.len() ==> #[trigger] listed[i] == lossy_chars(active[i].root)),
{
}

/// A folder that was not watched and could be started is watched as it was desired.
pub proof fn law_started_folders_are_watched_as_desired(
    active: Seq<FolderView>,
    desired: Seq<FolderView>,
    started: Seq<bool>,
    n: nat,
    i: int,
)
    requires
        is_listed(active),
        0 <= i < n <= desired.len(),
        started[i],
        forall|k: int|
            0 <= k < active.len() ==> components((#[trigger] active[k]).root) != components(
                desired[i].root,
            ),
        forall|k: int|
            0 <= k < i && started[k] ==> components((#[trigger] desired[k]).root) != components(
                desired[i].root,
            ),
    ensures
        reconciled(active, desired, started, n).contains(desired[i]),
    decreases n,
{
    let m = (n - 1) as nat;
    let before = reconciled(active, desired, started, m);
    let after = reconciled(active, desired, started, n);
    law_reconciling_keeps_the_listing(active, desired, started, m);
    lemma_activated(before, desired[n - 1]);
    if i < m {
        law_started_folders_are_watched_as_desired(active, desired, started, m, i);
        let k = choose|k: int| 0 <= k < before.len() && before[k] == desired[i];
        assert(activated(before, desired[n - 1]).contains(before[k]));
    } else {
        law_only_kept_and_started_folders_are_watched(
            active,
            desired,
            started,
            m,
            desired[i].root,
        );
        assert(!is_active(before, desired[i].root));
        lemma_place(before, desired[i].root);
        assert(after[place_of(before, desired[i].root)] == desired[i]);
    }
}

/// What is watched of a folder: its root, and its Git directory just where it is in Git
/// mode.
pub proof fn law_roots_and_git_directories_are_watched(folder: FolderView)
    ensures
        targets_of(folder)[0] == folder.root,
        folder.git is None ==> targets_of(folder).len() == 1,
        folder.git matches Some(git) ==> targets_of(folder).len() == 2 && targets_of(folder)[1]
            == git.git_dir,
{
}

/// A folder is watched where one with the same root is, and those watched are listed in
/// order.
pub proof fn law_watched_folders_are_known_by_their_roots(active: Seq<FolderView>, root: Seq<u8>)
    ensures
        is_active(active, root) <==> exists|i: int|
            0 <= i < active.len() && components((#[trigger] active[i]).root) == components(root),
        is_listed(active) <==> forall|i: int, j: int|
            0 <= i < j < active.len() ==> listed_before(
                components((#[trigger] active[i]).root),
                components((#[trigger] active[j]).root),
            ),
{
}

/// A result is answered with the response, or with the error in words.
pub proof fn law_results_are_answered(response: ControlResponseView, error: IoErrorView)
    ensures
        response_of(Ok(response)) == response,
        !response_of(Err(error)).ok && response_of(Err(error)).error == Some(error.message),
{
}

/// Updates and steps are seen with what they hold.
pub proof fn law_updates_are_seen_whole(
    folder: ConfiguredFolder,
    root: FsPath,
    response: ControlResponse,
    update: ConfigUpdate,
)
    ensures
        ConfigUpdate::Add(folder)@ == ConfigUpdateView::Add(folder@),
        ConfigUpdate::Remove(root)@ == ConfigUpdateView::Remove(root@),
        RequestStep::Answer(response)@ == RequestStepView::Answer(response@),
        RequestStep::Update(update)@ == RequestStepView::Update(update@),
{
}

} // verus!
