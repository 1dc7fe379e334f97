//! What goes over the sockets.

use gongd::fs_path::FsPath;
use gongd::protocol::{ControlRequest, ControlResponse, EventType};
use gongd::server::{
    control_reply, event_client_writer, handle_control_client, json_line, prepare_socket_path,
    request_text, ClientLine, ControlAction, ManagerReply, ManagerRequest, Received, SocketStep,
    WriterAction,
};

fn path(text: &str) -> FsPath {
    FsPath::from_text(text)
}

#[test]
fn event_socket_broadcasts_same_stream_to_multiple_clients() {
    let line = "{\"ok\":true}\n".to_owned();
    let write = |received| match event_client_writer(received) {
        WriterAction::Write(line) => line,
        other => panic!("unexpected action: {other:?}"),
    };
    let line_a = write(Received::Line(line.clone()));
    let line_b = write(Received::Line(line.clone()));
    assert_eq!(line_a, line_b);
    assert_eq!(line_a, line);
}

#[test]
fn slow_subscribers_lose_lines_and_stay() {
    assert!(matches!(event_client_writer(Received::Lagged), WriterAction::Continue));
    assert!(matches!(event_client_writer(Received::Closed), WriterAction::Stop));
}

#[test]
fn requests_are_forwarded() {
    let forwarded = |request| match handle_control_client(ClientLine::Request(request)) {
        ControlAction::Forward(request) => request,
        other => panic!("unexpected action: {other:?}"),
    };
    match forwarded(ControlRequest::AddWatch { folder: path("/a") }) {
        ManagerRequest::AddWatch { folder } => assert_eq!(folder, path("/a")),
        other => panic!("unexpected request: {other:?}"),
    }
    match forwarded(ControlRequest::RemoveWatch { folder: path("/b") }) {
        ManagerRequest::RemoveWatch { folder } => assert_eq!(folder, path("/b")),
        other => panic!("unexpected request: {other:?}"),
    }
    assert!(matches!(forwarded(ControlRequest::ListWatches), ManagerRequest::ListWatches));
}

#[test]
fn invalid_requests_are_answered() {
    match handle_control_client(ClientLine::Invalid("expected value".to_owned())) {
        ControlAction::Reply(response) => {
            assert_eq!(response, ControlResponse::error("invalid request: expected value"));
            assert!(!response.ok);
        }
        other => panic!("unexpected action: {other:?}"),
    }
    assert!(matches!(handle_control_client(ClientLine::Closed), ControlAction::Close));
}

#[test]
fn absent_managers_are_reported() {
    assert_eq!(
        control_reply(ManagerReply::Unavailable),
        ControlResponse::error("watch manager is unavailable")
    );
    assert_eq!(
        control_reply(ManagerReply::Silent),
        ControlResponse::error("watch manager did not respond")
    );
    let response = ControlResponse::success_message("done");
    assert_eq!(control_reply(ManagerReply::Answered(response.clone())), response);
}

#[test]
fn lines_are_read_back() {
    let text = "{\"op\":\"list_watches\"}";
    let stream = format!("{}{}", json_line(text.to_owned()), json_line("{}".to_owned()));
    assert_eq!(stream.lines().next(), Some(text));
    assert_eq!(stream, "{\"op\":\"list_watches\"}\n{}\n");
    assert_eq!(request_text("  {\"op\":\"list_watches\"}\r\n"), text);
}

#[test]
fn room_is_made_for_a_socket() {
    let steps = prepare_socket_path(&path("/run/gongd/a.sock"), true);
    assert_eq!(steps.len(), 2);
    match (&steps[0], &steps[1]) {
        (SocketStep::CreateDir(dir), SocketStep::RemoveFile(file)) => {
            assert_eq!(dir.display(), "/run/gongd");
            assert_eq!(file.display(), "/run/gongd/a.sock");
        }
        other => panic!("unexpected steps: {other:?}"),
    }
    assert_eq!(prepare_socket_path(&path("/run/gongd/a.sock"), false).len(), 1);
    assert_eq!(prepare_socket_path(&path("/"), false).len(), 0);
}

#[test]
fn responses_say_one_thing() {
    let success = ControlResponse::success_message("done");
    assert!(success.ok);
    assert_eq!(success.message.as_deref(), Some("done"));
    assert_eq!((success.error, success.folders), (None, None));
    let error = ControlResponse::error("no");
    assert!(!error.ok);
    assert_eq!(error.error.as_deref(), Some("no"));
    assert_eq!((error.message, error.folders), (None, None));
    let list = ControlResponse::list(&vec![path("/a"), FsPath::from_bytes(vec![b'/', 0xff])]);
    assert!(list.ok);
    assert_eq!(list.folders, Some(vec!["/a".to_owned(), "/\u{fffd}".to_owned()]));
    assert_eq!((list.message, list.error), (None, None));
}

#[test]
fn event_types_have_distinct_names() {
    let all = [
        (EventType::FileCreated, "file_created"),
        (EventType::FileModified, "file_modified"),
        (EventType::FileDeleted, "file_deleted"),
        (EventType::FileRenamed, "file_renamed"),
        (EventType::DirCreated, "dir_created"),
        (EventType::DirModified, "dir_modified"),
        (EventType::DirDeleted, "dir_deleted"),
        (EventType::DirRenamed, "dir_renamed"),
        (EventType::GitHeadChanged, "git_head_changed"),
        (EventType::GitIndexChanged, "git_index_changed"),
        (EventType::GitRefsChanged, "git_refs_changed"),
        (EventType::GitPackedRefsChanged, "git_packed_refs_changed"),
        (EventType::GitChanged, "git_changed"),
    ];
    for (event_type, name) in all {
        assert_eq!(event_type.as_str(), name);
    }
}
