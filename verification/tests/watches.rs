//! The config file, the watched folders and the requests to change them.

use gongd::config::{ConfigRead, ConfigStore, GongdConfig, SaveStep};
use gongd::environment::Environment;
use gongd::error::{IoError, IoErrorKind};
use gongd::event::{EventKind, FsEvent, ModifyKind, RemoveKind, SeenPath};
use gongd::folder::{DirProbe, FolderProbe, MonitoredFolder};
use gongd::fs_path::FsPath;
use gongd::protocol::{ControlRequest, ControlResponse};
use gongd::prune::{remove_missing_watches, should_prune_missing_watches, RawEvent};
use gongd::server::{
    control_reply, handle_control_client, request_text, ClientLine, ControlAction, ManagerReply,
    ManagerRequest,
};
use gongd::watch::{
    watch_targets, ConfigUpdate, PendingUpdate, RequestProbe, RequestStep, WatchManager,
};
use gongd::watch_config::{
    load_configured_folders, ConfigChange, ConfigWatch, ConfiguredFolder, LoadedConfiguredFolders,
};

fn path(text: &str) -> FsPath {
    FsPath::from_text(text)
}

fn env(vars: &[(&str, &str)]) -> Environment {
    Environment {
        vars: vars.iter().map(|(name, value)| (name.to_string(), value.to_string())).collect(),
    }
}

fn store(dir: &str) -> ConfigStore {
    ConfigStore::new(path(dir).join(&path(".gong")).join(&path("config.json")))
}

fn dir(root: &str) -> DirProbe {
    DirProbe { canonical: Ok(path(root)), is_dir: true }
}

fn missing() -> DirProbe {
    DirProbe {
        canonical: Err(IoError::new(IoErrorKind::NotFound, "No such file or directory")),
        is_dir: false,
    }
}

fn folder(root: &str, git: bool) -> MonitoredFolder {
    MonitoredFolder::discover(&path(root), &env(&[]), &folder_probe(root, git)).unwrap()
}

fn folder_probe(root: &str, git: bool) -> FolderProbe {
    FolderProbe { dir: dir(root), git_is_dir: git, ignore_files: Vec::new() }
}

fn parsed(paths: &[&str]) -> ConfigRead {
    ConfigRead::Parsed(GongdConfig { folders: paths.iter().map(|p| path(p)).collect() })
}

fn roots(folders: &[MonitoredFolder]) -> Vec<String> {
    folders.iter().map(|folder| folder.root().display()).collect()
}

/// The config that the steps write.
fn written(steps: Vec<SaveStep>) -> Option<GongdConfig> {
    steps.into_iter().find_map(|step| match step {
        SaveStep::Write(_, config) => Some(config),
        _ => None,
    })
}

/// A config in its written form.
fn to_json(config: &GongdConfig) -> String {
    let folders = config.folders.iter().map(|p| serde_json::Value::String(p.text().unwrap()));
    let mut object = serde_json::Map::new();
    object.insert("folders".to_owned(), serde_json::Value::Array(folders.collect()));
    serde_json::to_string_pretty(&serde_json::Value::Object(object)).unwrap()
}

/// What is read from a config in its written form.
fn from_json(raw: &str) -> ConfigRead {
    match serde_json::from_str::<serde_json::Value>(raw) {
        Ok(value) => ConfigRead::Parsed(GongdConfig {
            folders: match value["folders"].as_array() {
                Some(folders) => folders.iter().map(|f| path(f.as_str().unwrap())).collect(),
                None => Vec::new(),
            },
        }),
        Err(err) => ConfigRead::Malformed(err.to_string()),
    }
}

fn folders_of(change: ConfigChange) -> Vec<MonitoredFolder> {
    match change {
        ConfigChange::Apply { folders, .. } => folders,
        other => panic!("unexpected change: {other:?}"),
    }
}

fn spellings(config: &GongdConfig) -> Vec<String> {
    config.folders.iter().map(|p| p.display()).collect()
}

fn configured(original: &str, root: &str) -> ConfiguredFolder {
    ConfiguredFolder { original: path(original), root: path(root) }
}

/// Applies a config that names folders which are all there, under the given roots.
fn apply(manager: &mut WatchManager, config: &[(&str, &str)], env: &Environment) -> Vec<String> {
    let names: Vec<&str> = config.iter().map(|(name, _)| *name).collect();
    let probes: Vec<DirProbe> = config.iter().map(|(_, root)| dir(root)).collect();
    let watch = manager.config_watch();
    let loaded = watch.load_configured_folders_snapshot(parsed(&names), env, &probes).unwrap();
    let folders = watch.load_configured_folders_for_write(Ok(loaded), Ok(())).unwrap();
    let probes = folders.iter().map(|f| folder_probe(&f.root.display(), false)).collect();
    let change = watch.load_folder_states_for_apply(Ok(folders), env, &probes).unwrap();
    let desired = folders_of(change);
    let started = vec![true; desired.len()];
    manager.reconcile_watches(&desired, &started);
    roots(&manager.sync_shared_folders())
}

/// Answers a request on what the config holds, where all writing succeeds.
fn answer(
    manager: &WatchManager,
    request: ManagerRequest,
    env: &Environment,
    probe: RequestProbe,
    folders: Vec<ConfiguredFolder>,
) -> (ControlResponse, Option<GongdConfig>) {
    match manager.handle_request(request, env, &probe) {
        RequestStep::Answer(response) => (response, None),
        RequestStep::Update(update) => match update.apply(Ok(folders)) {
            Ok(pending) => {
                let steps = manager.config_watch().save_configured_folders(&pending.folders);
                (pending.persist_folders(Ok(())), written(steps))
            }
            Err(response) => (response, None),
        },
    }
}

#[test]
fn load_missing_config_returns_empty() {
    let store = ConfigStore::new(path("/tmp/gongd-config-missing").join(&path("missing.json")));

    assert!(store.load(ConfigRead::Missing).unwrap().folders.is_empty());
}

#[test]
fn save_and_load_round_trip() {
    let target = path("/tmp/gongd-config-roundtrip").join(&path("gongd.json"));
    let store = ConfigStore::new(target.clone());
    let config = GongdConfig { folders: vec![path("/tmp/a"), path("/tmp/b")] };
    let names = spellings(&config);

    // The file that is renamed to the config's place last is the one that was written.
    let mut disk: Vec<(FsPath, String)> = Vec::new();
    for step in store.save(&config) {
        match step {
            SaveStep::CreateDir(_) => {}
            SaveStep::Write(file, config) => disk.push((file, to_json(&config))),
            SaveStep::Rename(from, to) => {
                let index = disk.iter().position(|(file, _)| *file == from).unwrap();
                disk[index].0 = to;
            }
        }
    }
    let (_, raw) = disk.iter().find(|(file, _)| *file == target).unwrap();

    assert_eq!(spellings(&store.load(from_json(raw)).unwrap()), names);
    assert_eq!(store.load(from_json(raw)).unwrap(), config);
    assert_eq!(disk.len(), 1);
    assert_eq!(names, vec!["/tmp/a", "/tmp/b"]);
    assert!(matches!(from_json("{"), ConfigRead::Malformed(_)));
}

#[test]
fn config_is_written_beside_and_then_replaced() {
    let config = GongdConfig { folders: vec![path("~/a")] };
    let steps = store("/home/u").save(&config);
    assert_eq!(steps.len(), 3);
    match (&steps[0], &steps[1], &steps[2]) {
        (SaveStep::CreateDir(dir), SaveStep::Write(file, written), SaveStep::Rename(from, to)) => {
            assert_eq!(dir.display(), "/home/u/.gong");
            assert_eq!(file.display(), "/home/u/.gong/config.json.tmp");
            assert_eq!(spellings(written), vec!["~/a"]);
            assert!(from.same_bytes(file));
            assert_eq!(to.display(), "/home/u/.gong/config.json");
        }
        other => panic!("unexpected steps: {other:?}"),
    }
}

#[test]
fn configs_are_equal_by_their_paths() {
    let config = |paths: &[&str]| GongdConfig { folders: paths.iter().map(|p| path(p)).collect() };
    assert_eq!(config(&["/a", "/b"]), config(&["/a/", "//b"]));
    assert_ne!(config(&["/a", "/b"]), config(&["/b", "/a"]));
    assert_ne!(config(&["/a"]), config(&["/a", "/a"]));
    assert_eq!(config(&["~/a"]).clone(), config(&["~/a"]));
    assert!(store("/home/u").clone().path.same_bytes(&store("/home/u").path));
}

#[test]
fn config_directory_is_watched() {
    assert_eq!(store("/home/u").watch_dir().display(), "/home/u/.gong");
    assert_eq!(ConfigStore::new(path("/")).watch_dir().display(), ".");
    assert_eq!(ConfigStore::new(path("config.json")).watch_dir().display(), "");
}

#[test]
fn malformed_config_is_invalid_data() {
    let store = ConfigStore::new(path("/c.json"));
    let err = store.load(ConfigRead::Malformed("expected value".to_owned())).unwrap_err();
    assert_eq!(err.kind, IoErrorKind::InvalidData);
    assert_eq!(err.message, "failed to parse /c.json: expected value");
    let denied = IoError::new(IoErrorKind::Other, "denied");
    assert_eq!(store.load(ConfigRead::Unreadable(denied)).unwrap_err().message, "denied");
    let denied = IoError::new(IoErrorKind::PermissionDenied, "Permission denied");
    let err = store.load(ConfigRead::Unreadable(denied)).unwrap_err();
    assert_eq!(err.kind, IoErrorKind::PermissionDenied);
    assert!(!ConfigRead::Missing.is_present());
    assert!(ConfigRead::Malformed(String::new()).is_present());
}

#[test]
fn seed_from_cli_keeps_original_paths() {
    let home = "/tmp/gongd-config-seed-home";
    let folder = path(home).join(&path("folder")).display();
    let env = env(&[("HOME", home)]);
    let config_watch = ConfigWatch::new(store(home), vec![path("~/folder")]);

    let seed = config_watch
        .seed_from_cli_if_needed(ConfigRead::Missing, &env, &vec![dir(&folder)])
        .unwrap();
    assert!(seed.skipped.is_empty());

    let config = written(config_watch.save_configured_folders(&seed.folders.unwrap())).unwrap();
    assert_eq!(spellings(&config), vec!["~/folder"]);
}

#[test]
fn seeding_leaves_configs_alone() {
    let watch = ConfigWatch::new(store("/home/u"), vec![path("/work/a")]);
    let none = env(&[]);
    let seed = |read, probe| watch.seed_from_cli_if_needed(read, &none, &vec![probe]);
    assert!(seed(parsed(&["/work/b"]), dir("/work/a")).unwrap().folders.is_none());
    assert!(seed(parsed(&[]), dir("/work/a")).unwrap().folders.is_some());
    let gone = seed(ConfigRead::Missing, missing()).unwrap();
    assert!(gone.folders.is_none());
    assert_eq!(gone.skipped[0].text(), "skipping /work/a: No such file or directory");
    let malformed = ConfigRead::Malformed("bad".to_owned());
    assert!(seed(malformed, dir("/work/a")).unwrap().folders.is_none());
    let denied = ConfigRead::Unreadable(IoError::new(IoErrorKind::Other, "denied"));
    assert_eq!(seed(denied, dir("/work/a")).unwrap_err().message, "denied");

    let idle = ConfigWatch::new(store("/home/u"), Vec::new());
    let read = ConfigRead::Missing;
    assert!(idle.seed_from_cli_if_needed(read, &none, &Vec::new()).unwrap().folders.is_none());
}

#[test]
fn config_reload_dedupes_by_resolved_path_and_keeps_first_original() {
    let home = "/tmp/gongd-config-home";
    let folder_root = path(home).join(&path("folder")).display();
    let env = env(&[("HOME", home)]);
    let store = store(home);
    let mut manager = WatchManager::new(Vec::new(), store);

    let read = parsed(&["~/folder", &folder_root]);
    let probes = vec![dir(&folder_root), dir(&folder_root)];
    let watch = manager.config_watch();
    let loaded = watch.load_configured_folders_snapshot(read, &env, &probes);
    assert!(loaded.as_ref().unwrap().skipped.is_empty());
    let config = written(watch.reconcile_steps(&loaded)).unwrap();
    assert_eq!(spellings(&config), vec!["~/folder"]);

    let config = [("~/folder", folder_root.as_str())];
    assert_eq!(apply(&mut manager, &config, &env), vec![folder_root]);
}

#[test]
fn initialize_prunes_missing_folders_from_config() {
    let tmp = "/tmp/gongd-watch-manager-prune";
    let present = path(tmp).join(&path("present")).display();
    let gone = path(tmp).join(&path("missing")).display();
    let none = env(&[]);
    let mut manager = WatchManager::new(Vec::new(), store(tmp));

    let watch = manager.config_watch();
    let probes = vec![missing(), dir(&present)];
    let read = parsed(&[&gone, &present]);
    let loaded = watch.load_configured_folders_snapshot(read, &none, &probes);
    let config = written(watch.reconcile_steps(&loaded)).unwrap();
    assert_eq!(spellings(&config), vec![present.clone()]);
    let skipped = loaded.unwrap().skipped;
    assert_eq!(skipped.len(), 1);
    assert_eq!(skipped[0].text(), format!("skipping {gone}: No such file or directory"));

    let active = apply(&mut manager, &[(present.as_str(), present.as_str())], &none);
    assert_eq!(active, vec![present]);
}

#[test]
fn startup_seed_and_control_requests_flow_through_config_reload() {
    let tmp = "/tmp/gongd-watch-manager";
    let cli = path(tmp).join(&path("cli")).display();
    let added = path(tmp).join(&path("added")).display();
    let none = env(&[]);
    let mut manager = WatchManager::new(vec![path(&cli)], store(tmp));

    let seed = manager
        .config_watch()
        .seed_from_cli_if_needed(ConfigRead::Missing, &none, &vec![dir(&cli)])
        .unwrap()
        .folders
        .unwrap();
    assert_eq!(apply(&mut manager, &[(&cli, &cli)], &none), vec![cli.clone()]);

    let request = ManagerRequest::AddWatch { folder: path(&added) };
    let probe = RequestProbe { dir: dir(&added), found: Some(Ok(path(&added))) };
    let (response, config) = answer(&manager, request, &none, probe, seed);
    assert!(response.ok);
    assert_eq!(response.message, Some(format!("watch added for {added}")));
    assert_eq!(spellings(&config.unwrap()), vec![cli.clone(), added.clone()]);

    let both = [(cli.as_str(), cli.as_str()), (added.as_str(), added.as_str())];
    assert_eq!(apply(&mut manager, &both, &none), vec![added.clone(), cli.clone()]);

    let request = ManagerRequest::RemoveWatch { folder: path(&cli) };
    let probe = RequestProbe { dir: dir(&cli), found: Some(Ok(path(&cli))) };
    let folders = vec![configured(&cli, &cli), configured(&added, &added)];
    let (response, config) = answer(&manager, request, &none, probe, folders);
    assert!(response.ok);
    assert_eq!(spellings(&config.unwrap()), vec![added.clone()]);
    assert_eq!(apply(&mut manager, &[(&added, &added)], &none), vec![added]);
}

#[test]
fn add_watch_dedupes_against_existing_config_by_resolved_path() {
    let home = "/tmp/gongd-watch-manager-home";
    let folder = path(home).join(&path("folder")).display();
    let env = env(&[("HOME", home)]);
    let manager = WatchManager::new(Vec::new(), store(home));

    let request = ManagerRequest::AddWatch { folder: path(&folder) };
    let probe = RequestProbe { dir: dir(&folder), found: Some(Ok(path(&folder))) };
    let folders = vec![configured("~/folder", &folder)];
    let (response, config) = answer(&manager, request, &env, probe, folders);

    assert!(response.ok);
    assert_eq!(response.message, Some(format!("watch already configured for {}", folder)));
    assert_eq!(spellings(&config.unwrap()), vec!["~/folder"]);
}

#[test]
fn remove_watch_matches_configured_folder_by_resolved_path() {
    let home = "/tmp/gongd-watch-manager-remove-home";
    let folder = path(home).join(&path("folder")).display();
    let env = env(&[("HOME", home)]);
    let manager = WatchManager::new(Vec::new(), store(home));

    let request = ManagerRequest::RemoveWatch { folder: path(&folder) };
    let probe = RequestProbe { dir: dir(&folder), found: Some(Ok(path(&folder))) };
    let folders = vec![configured("~/folder", &folder)];
    let (response, config) = answer(&manager, request, &env, probe, folders);

    assert!(response.ok);
    assert!(config.unwrap().folders.is_empty());
}

/// Sends a line to the control socket, and reads the answer. The config holds `folders`.
fn send_request(
    manager: &WatchManager,
    line: &str,
    folders: Vec<ConfiguredFolder>,
) -> (ControlResponse, Option<GongdConfig>) {
    let value: serde_json::Value = serde_json::from_str(&request_text(line)).unwrap();
    let named = value["folder"].as_str().map(path);
    let request = match (value["op"].as_str().unwrap(), named) {
        ("add_watch", Some(folder)) => ControlRequest::AddWatch { folder },
        ("remove_watch", Some(folder)) => ControlRequest::RemoveWatch { folder },
        ("list_watches", None) => ControlRequest::ListWatches,
        other => panic!("unexpected request: {other:?}"),
    };
    let request = match handle_control_client(ClientLine::Request(request)) {
        ControlAction::Forward(request) => request,
        other => panic!("unexpected action: {other:?}"),
    };
    let probe = match &request {
        ManagerRequest::AddWatch { folder } | ManagerRequest::RemoveWatch { folder } => {
            let root = folder.display();
            RequestProbe { dir: dir(&root), found: Some(Ok(path(&root))) }
        }
        ManagerRequest::ListWatches => RequestProbe { dir: missing(), found: None },
    };
    let (response, config) = answer(manager, request, &env(&[]), probe, folders);
    (control_reply(ManagerReply::Answered(response)), config)
}

#[test]
fn control_socket_adds_lists_and_removes_watches() {
    let tmp = "/tmp/gongd-control-socket";
    let repo = path(tmp).join(&path("repo")).display();
    let none = env(&[]);
    let store = ConfigStore::new(path(tmp).join(&path("gongd.json")));
    let mut manager = WatchManager::new(Vec::new(), store);

    let line = format!(r#"{{"op":"add_watch","folder":"{}"}}"#, repo);
    let (add, config) = send_request(&manager, &line, Vec::new());
    assert!(add.ok);
    assert_eq!(spellings(&config.unwrap()), vec![repo.clone()]);
    apply(&mut manager, &[(&repo, &repo)], &none);

    let (list, _) = send_request(&manager, r#"{"op":"list_watches"}"#, Vec::new());
    assert_eq!(list.folders, Some(vec![repo.clone()]));

    let line = format!(r#"{{"op":"remove_watch","folder":"{}"}}"#, repo);
    let (remove, config) = send_request(&manager, &line, vec![configured(&repo, &repo)]);
    assert!(remove.ok);
    assert_eq!(config.unwrap().folders, Vec::<FsPath>::new());
    apply(&mut manager, &[], &none);

    let (list_after_remove, _) = send_request(&manager, r#"{"op":"list_watches"}"#, Vec::new());
    assert_eq!(list_after_remove.folders, Some(Vec::new()));
}

#[test]
fn remove_missing_watches_prunes_only_missing_roots() {
    for (case, root_is_dir, expected_config_empty) in
        [("missing-root", false, true), ("missing-git-dir", true, false)]
    {
        let folder_root = path(&format!("/tmp/gongd-app-{case}")).join(&path("folder"));
        let text = folder_root.display();
        let snapshot = vec![folder(&text, true)];
        let event: RawEvent = Ok(FsEvent {
            kind: EventKind::Remove(RemoveKind::Folder),
            paths: vec![SeenPath { path: folder_root.clone(), is_dir: false }],
        });

        let roots = remove_missing_watches(&snapshot, &vec![root_is_dir], &event);
        let mut folders = vec![configured(&text, &text)];
        for root in roots {
            folders = ConfigUpdate::Remove(root).apply(Ok(folders)).unwrap().folders;
        }
        assert_eq!(folders.is_empty(), expected_config_empty);
    }
}

#[test]
fn missing_roots_are_listed_in_order_and_once() {
    let snapshot = vec![
        folder("/work/b", false),
        folder("/work/a", false),
        folder("/work/c", false),
        folder("/work/b", false),
    ];
    let gone = vec![false, false, true, false];
    let failed: RawEvent = Err("queue overflow".to_owned());
    let roots = remove_missing_watches(&snapshot, &gone, &failed);
    let texts: Vec<String> = roots.iter().map(|root| root.display()).collect();
    assert_eq!(texts, vec!["/work/a", "/work/b"]);

    let modified: RawEvent =
        Ok(FsEvent { kind: EventKind::Modify(ModifyKind::Any), paths: Vec::new() });
    assert!(!should_prune_missing_watches(&modified));
    assert!(should_prune_missing_watches(&failed));
    assert!(remove_missing_watches(&snapshot, &gone, &modified).is_empty());
}

#[test]
fn refused_requests_leave_the_config_alone() {
    let none = env(&[]);
    let manager = WatchManager::new(Vec::new(), store("/home/u"));
    let probe = || RequestProbe { dir: missing(), found: None };

    let request = ManagerRequest::AddWatch { folder: path("/work/none") };
    let (response, config) = answer(&manager, request, &none, probe(), Vec::new());
    assert!(!response.ok && config.is_none());
    assert_eq!(response.error.as_deref(), Some("No such file or directory"));

    let request = ManagerRequest::RemoveWatch { folder: path("none") };
    let (response, config) = answer(&manager, request, &none, probe(), Vec::new());
    assert!(!response.ok && config.is_none());
    assert_eq!(
        response.error.as_deref(),
        Some("folder path must exist or be an absolute path that matches a configured watch")
    );

    let request = ManagerRequest::RemoveWatch { folder: path("/work/none") };
    let (response, config) = answer(&manager, request, &none, probe(), Vec::new());
    assert!(!response.ok && config.is_none());
    assert_eq!(response.error.as_deref(), Some("watch not found for /work/none"));
}

#[test]
fn configs_that_cannot_be_used_are_answered_with_errors() {
    let update = ConfigUpdate::Remove(path("/work/a"));
    let denied = IoError::new(IoErrorKind::Other, "denied");
    let response = update.apply(Err(denied.clone())).unwrap_err();
    assert_eq!(response, ControlResponse::error("denied"));

    let pending = PendingUpdate {
        folders: Vec::new(),
        response: ControlResponse::success_message("done"),
    };
    assert_eq!(pending.persist_folders(Err(denied)), ControlResponse::error("denied"));
}

#[test]
fn removing_undoes_adding() {
    let before = vec![configured("/work/a", "/work/a"), configured("~/b", "/home/u/b")];
    let added = ConfigUpdate::Add(configured("/work/c", "/work/c")).apply(Ok(before)).unwrap();
    let twice = ConfigUpdate::Add(configured("c", "/work/c")).apply(Ok(added.folders)).unwrap();
    assert_eq!(twice.folders.len(), 3);
    let removed = ConfigUpdate::Remove(path("/work/c")).apply(Ok(twice.folders)).unwrap();
    let left: Vec<String> = removed.folders.iter().map(|f| f.original.display()).collect();
    assert_eq!(left, vec!["/work/a", "~/b"]);
    assert_eq!(removed.response, ControlResponse::success_message("watch removed for /work/c"));
}

#[test]
fn watched_folders_are_reconciled() {
    let mut manager = WatchManager::new(Vec::new(), store("/home/u"));
    let desired = vec![folder("/work/c", false), folder("/work/a", true), folder("/work/b", false)];
    assert_eq!(manager.ensure_active(&desired[1]).unwrap().len(), 2);
    manager.reconcile_watches(&desired, &vec![true, true, false]);
    assert_eq!(roots(&manager.sync_shared_folders()), vec!["/work/a", "/work/c"]);
    assert!(manager.ensure_active(&desired[1]).is_none());
    assert_eq!(
        manager.list_watches().folders,
        Some(vec!["/work/a".to_owned(), "/work/c".to_owned()])
    );

    // A folder that is watched already stays as it is, in Git mode here.
    let desired = vec![folder("/work/a", false), folder("/work/d", false)];
    manager.reconcile_watches(&desired, &vec![true, true]);
    let active = manager.sync_shared_folders();
    assert_eq!(roots(&active), vec!["/work/a", "/work/d"]);
    assert!(active[0].git_dir().is_some());

    manager.reconcile_watches(&Vec::new(), &Vec::new());
    assert!(manager.sync_shared_folders().is_empty());
}

#[test]
fn git_mode_watches_the_git_directory_too() {
    let texts = |folder: &MonitoredFolder| -> Vec<String> {
        watch_targets(folder).iter().map(|p| p.display()).collect()
    };
    assert_eq!(texts(&folder("/work/a", false)), vec!["/work/a"]);
    assert_eq!(texts(&folder("/work/a", true)), vec!["/work/a", "/work/a/.git"]);
}

#[test]
fn deleted_config_stops_all_watches_and_malformed_config_none() {
    let watch = ConfigWatch::new(store("/home/u"), Vec::new());
    let none = env(&[]);
    let loaded = watch.load_configured_folders_snapshot(ConfigRead::Missing, &none, &Vec::new());
    let folders = watch.load_configured_folders_for_write(loaded, Ok(()));
    let states = watch.load_folder_states_for_apply(folders, &none, &Vec::new()).unwrap();
    assert_eq!(roots(&folders_of(states)), Vec::<String>::new());

    let read = ConfigRead::Malformed("bad".to_owned());
    let loaded = watch.load_configured_folders_snapshot(read, &none, &Vec::new());
    let folders = watch.load_configured_folders_for_write(loaded, Ok(()));
    match watch.load_folder_states_for_apply(folders, &none, &Vec::new()).unwrap() {
        ConfigChange::PassedOver(err) => {
            assert_eq!(err.message, "failed to parse /home/u/.gong/config.json: bad");
        }
        other => panic!("unexpected change: {other:?}"),
    }

    let denied: Result<Vec<ConfiguredFolder>, IoError> =
        Err(IoError::new(IoErrorKind::Other, "denied"));
    assert!(watch.load_folder_states_for_apply(denied, &none, &Vec::new()).is_err());
}

#[test]
fn folders_that_cannot_be_discovered_are_skipped() {
    let watch = ConfigWatch::new(store("/home/u"), Vec::new());
    let folders = vec![configured("/work/a", "/work/a"), configured("/work/b", "/work/b")];
    let gone = FolderProbe { dir: missing(), git_is_dir: false, ignore_files: Vec::new() };
    let probes = vec![gone, folder_probe("/work/b", true)];
    match watch.load_folder_states_for_apply(Ok(folders), &env(&[]), &probes).unwrap() {
        ConfigChange::Apply { folders, skipped } => {
            assert_eq!(roots(&folders), vec!["/work/b"]);
            assert_eq!(skipped.len(), 1);
            assert_eq!(skipped[0].text(), "skipping /work/a: No such file or directory");
        }
        other => panic!("unexpected change: {other:?}"),
    }
}

#[test]
fn unchanged_configs_are_not_written() {
    let loaded = load_configured_folders(
        &vec![path("/work/a"), path("/work/b")],
        &env(&[]),
        &vec![dir("/work/a"), dir("/work/b")],
    );
    assert!(!loaded.changed);
    assert_eq!(loaded.folders.len(), 2);

    let watch = ConfigWatch::new(store("/home/u"), Vec::new());
    let denied = IoError::new(IoErrorKind::Other, "denied");
    let loaded = Ok(loaded);
    assert!(watch.reconcile_steps(&loaded).is_empty());
    assert!(watch.reconcile_steps(&Err(denied.clone())).is_empty());
    assert!(watch.load_configured_folders_for_write(loaded, Err(denied.clone())).is_ok());
    let changed =
        LoadedConfiguredFolders { folders: Vec::new(), changed: true, skipped: Vec::new() };
    assert!(watch.load_configured_folders_for_write(Ok(changed), Err(denied)).is_err());
}

#[test]
fn configured_folder_keeps_its_spelling() {
    let home = env(&[("HOME", "/home/u")]);
    let folder = ConfiguredFolder::from_path(&path("~/a"), &home, &dir("/home/u/a")).unwrap();
    assert_eq!(folder.original.display(), "~/a");
    assert_eq!(folder.resolved().display(), "/home/u/a");
    let file = DirProbe { canonical: Ok(path("/home/u/a")), is_dir: false };
    let err = ConfiguredFolder::from_path(&path("~/a"), &home, &file).unwrap_err();
    assert_eq!(err.message, "folder path must be a directory");
}
