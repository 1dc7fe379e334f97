//! The client's side of the sockets.

use gongd::client::{
    control_outcome, is_reconnectable_io_error, list_outcome, read_optional_json_line, Client,
    Error, Event, EventStream, EventType, FolderControlOp, StreamInput, StreamStep,
    DEFAULT_CONTROL_SOCKET, DEFAULT_EVENT_SOCKET, RECONNECT_DELAY_MS, VERSION,
};
use gongd::error::{IoError, IoErrorKind};
use gongd::fs_path::FsPath;
use gongd::protocol::ControlResponse;

fn path(text: &str) -> FsPath {
    FsPath::from_text(text)
}

fn socket_path(name: &str) -> String {
    format!("/tmp/gongd-sdk-{name}.sock")
}

/// Reads the JSON of an event as it comes over the socket.
fn parse_event(text: &str) -> Event {
    let value: serde_json::Value = serde_json::from_str(text).unwrap();
    let event_type = match value["type"].as_str().unwrap() {
        "file_modified" => EventType::FileModified,
        "repo_head_changed" => EventType::RepoHeadChanged,
        other => panic!("unexpected type: {other}"),
    };
    Event {
        repo: value["repo"].as_str().unwrap().to_owned(),
        event_type,
        path: value["path"].as_str().map(str::to_owned),
        git_path: value["git_path"].as_str().map(str::to_owned),
        ts_unix_ms: value["ts_unix_ms"].as_u64().unwrap(),
    }
}

#[test]
fn version_matches_release_tag() {
    assert_eq!(VERSION, "v0.1.0");
}

#[test]
fn add_watch_sends_expected_request() {
    let control_socket = socket_path("ctl-add");
    let client = Client::with_sockets(path("/tmp/unused.sock"), path(&control_socket));

    let request = client.add_watch(&path("/tmp/folder"));
    assert_eq!(request.op, "add_watch");
    assert_eq!(request.folder.as_deref(), Some("/tmp/folder"));
    assert!(request.socket.same_bytes(&path(&control_socket)));

    let response = control_outcome(Ok(ControlResponse {
        ok: true,
        message: Some("watch added".to_owned()),
        error: None,
        folders: None,
    }))
    .unwrap();
    assert_eq!(response.message.as_deref(), Some("watch added"));
}

#[test]
fn list_watches_returns_folder_list() {
    let control_socket = socket_path("ctl-list");
    let client = Client::with_sockets(path("/tmp/unused.sock"), path(&control_socket));

    let request = client.list_watches();
    assert_eq!(request.op, "list_watches");
    assert_eq!(request.folder, None);

    let folders = list_outcome(Ok(ControlResponse {
        ok: true,
        message: None,
        error: None,
        folders: Some(vec!["/tmp/a".to_owned(), "/tmp/b".to_owned()]),
    }))
    .unwrap();
    assert_eq!(folders, vec!["/tmp/a", "/tmp/b"]);
}

#[test]
fn remove_watch_surfaces_daemon_error() {
    let control_socket = socket_path("ctl-remove");
    let client = Client::with_sockets(path("/tmp/unused.sock"), path(&control_socket));

    let request = client.remove_watch(&path("/tmp/folder"));
    assert_eq!(request.op, "remove_watch");
    assert_eq!(request.folder.as_deref(), Some("/tmp/folder"));

    let err = control_outcome(Ok(ControlResponse {
        ok: false,
        message: None,
        error: Some("watch not found".to_owned()),
        folders: None,
    }))
    .unwrap_err();
    match err {
        Error::Daemon(message) => assert_eq!(message, "watch not found"),
        other => panic!("unexpected error: {}", other.text()),
    }
}

#[test]
fn subscribe_reconnects_after_stream_eof() {
    let event_socket = socket_path("evt");
    let client = Client::with_sockets(path(&event_socket), path("/tmp/unused.sock"));
    let stream = client.subscribe();

    assert!(matches!(stream.next_event(StreamInput::Connected), StreamStep::ReadLine));
    let line = "{\"repo\":\"/tmp/repo\",\"type\":\"file_modified\",\"path\":\"main.go\",\"git_path\":null,\"ts_unix_ms\":1}\n";
    let first = match stream.next_event(StreamInput::Line(line.to_owned())) {
        StreamStep::Parse(text) => parse_event(&text),
        other => panic!("unexpected step: {other:?}"),
    };
    let first = match stream.next_event(StreamInput::Parsed(first)) {
        StreamStep::Deliver(event) => event,
        other => panic!("unexpected step: {other:?}"),
    };
    assert_eq!(first.event_type, EventType::FileModified);
    assert_eq!(first.path.as_deref(), Some("main.go"));

    match stream.next_event(StreamInput::Line(String::new())) {
        StreamStep::Connect(socket) => assert!(socket.same_bytes(&path(&event_socket))),
        other => panic!("unexpected step: {other:?}"),
    }
    let refused = IoError::new(IoErrorKind::ConnectionRefused, "connection refused");
    match stream.next_event(StreamInput::ConnectFailed(refused)) {
        StreamStep::WaitAndConnect(pause, socket) => {
            assert_eq!(pause, RECONNECT_DELAY_MS);
            assert!(socket.same_bytes(&path(&event_socket)));
        }
        other => panic!("unexpected step: {other:?}"),
    }
    assert!(matches!(stream.next_event(StreamInput::Connected), StreamStep::ReadLine));

    let line = "{\"repo\":\"/tmp/repo\",\"type\":\"repo_head_changed\",\"path\":null,\"git_path\":\"HEAD\",\"ts_unix_ms\":2}\n";
    let second = match stream.next_event(StreamInput::Line(line.to_owned())) {
        StreamStep::Parse(text) => parse_event(&text),
        other => panic!("unexpected step: {other:?}"),
    };
    assert_eq!(second.event_type, EventType::RepoHeadChanged);
    assert_eq!(second.git_path.as_deref(), Some("HEAD"));
    assert_eq!(second.ts_unix_ms, 2);
}

#[test]
fn client_uses_default_sockets() {
    let client = Client::new();
    assert_eq!(client.event_socket.text().as_deref(), Some("/tmp/gongd.sock"));
    assert_eq!(client.control_socket.text().as_deref(), Some("/tmp/gongd.ctl.sock"));
    assert_eq!(DEFAULT_EVENT_SOCKET, "/tmp/gongd.sock");
    assert_eq!(DEFAULT_CONTROL_SOCKET, "/tmp/gongd.ctl.sock");
    let default = Client::default();
    assert!(default.event_socket == client.event_socket);
    assert!(default.control_socket == client.control_socket);
    let copy = client.clone();
    assert!(copy.event_socket.same_bytes(&client.event_socket));
    assert!(copy.control_socket.same_bytes(&client.control_socket));
}

#[test]
fn request_spells_other_bytes_lossily() {
    let client = Client::new();
    let folder = FsPath::from_bytes(vec![b'/', 0xff, b'a']);
    assert_eq!(client.add_watch(&folder).folder.as_deref(), Some("/\u{fffd}a"));
}

#[test]
fn refusal_without_reason_has_default_text() {
    let refusal = ControlResponse { ok: false, message: None, error: None, folders: None };
    match control_outcome(Ok(refusal)) {
        Err(error) => assert_eq!(error.text(), "gongd returned an unsuccessful response"),
        Ok(_) => panic!("refusal taken for success"),
    }
}

#[test]
fn failed_replies_are_handed_on() {
    let failed = Error::from(IoError::new(IoErrorKind::NotFound, "no such socket"));
    match control_outcome(Err(failed)) {
        Err(Error::Io(error)) => {
            assert_eq!(error.kind, IoErrorKind::NotFound);
            assert_eq!(error.message, "no such socket");
        }
        other => panic!("unexpected outcome: {other:?}"),
    }
    match list_outcome(Err(Error::Json("EOF while parsing".to_owned()))) {
        Err(Error::Json(reason)) => assert_eq!(reason, "EOF while parsing"),
        other => panic!("unexpected outcome: {other:?}"),
    }
}

#[test]
fn listing_without_list_is_empty() {
    let response = ControlResponse { ok: true, message: None, error: None, folders: None };
    assert!(list_outcome(Ok(response)).unwrap().is_empty());
}

#[test]
fn lines_are_trimmed_and_blank_ones_skipped() {
    assert_eq!(read_optional_json_line("  {} \r\n").as_deref(), Some("{}"));
    assert_eq!(read_optional_json_line("\u{a0}x\u{3000}").as_deref(), Some("x"));
    assert_eq!(read_optional_json_line(" \t\n"), None);
    assert_eq!(read_optional_json_line(""), None);
}

#[test]
fn operations_are_named_as_on_the_wire() {
    assert_eq!(FolderControlOp::AddWatch.as_str(), "add_watch");
    assert_eq!(FolderControlOp::RemoveWatch.as_str(), "remove_watch");
}

#[test]
fn only_passing_errors_are_reconnectable() {
    for kind in [
        IoErrorKind::NotFound,
        IoErrorKind::ConnectionRefused,
        IoErrorKind::ConnectionAborted,
        IoErrorKind::ConnectionReset,
        IoErrorKind::NotConnected,
        IoErrorKind::AddrNotAvailable,
    ] {
        assert!(is_reconnectable_io_error(&IoError::new(kind, "")));
    }
    for kind in [IoErrorKind::InvalidInput, IoErrorKind::InvalidData, IoErrorKind::Other] {
        assert!(!is_reconnectable_io_error(&IoError::new(kind, "")));
    }
}

#[test]
fn subscription_ends_on_lasting_errors() {
    let stream = EventStream { socket_path: path("/tmp/x.sock") };
    let denied = IoError::new(IoErrorKind::Other, "permission denied");
    match stream.next_event(StreamInput::ConnectFailed(denied.clone())) {
        StreamStep::Fail(error) => assert_eq!(error.text(), "permission denied"),
        other => panic!("unexpected step: {other:?}"),
    }
    match stream.next_event(StreamInput::ReadFailed(denied)) {
        StreamStep::Fail(Error::Io(error)) => assert_eq!(error.kind, IoErrorKind::Other),
        other => panic!("unexpected step: {other:?}"),
    }
    match stream.next_event(StreamInput::Malformed("expected value".to_owned())) {
        StreamStep::Fail(Error::Json(reason)) => assert_eq!(reason, "expected value"),
        other => panic!("unexpected step: {other:?}"),
    }
    let reset = IoError::new(IoErrorKind::ConnectionReset, "reset");
    assert!(matches!(stream.next_event(StreamInput::ReadFailed(reset)), StreamStep::Connect(_)));
}
