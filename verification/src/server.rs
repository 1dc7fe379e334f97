//! The sockets: who is answered what, and how lines are framed.

use vstd::prelude::*;

use crate::fs_path::{parent_of, FsPath};
use crate::protocol::{error_response, ControlRequest, ControlResponse};
use crate::text::{concat, trim, trimmed};
use crate::views::seq_view;

verus! {

/// A text as a line of its own.
pub open spec fn line_of(text: Seq<char>) -> Seq<char> {
    text.push('\n')
}

/// The text up to the first line break, or all of it.
pub open spec fn first_line(s: Seq<char>) -> Seq<char>
    decreases s.len(),
{
    if s.len() == 0 || s[0] == '\n' {
        Seq::empty()
    } else {
        seq![s[0]] + first_line(s.skip(1))
    }
}

/// The text as a line of its own.
pub fn json_line(json: String) -> (line: String)
    ensures
        line@ == line_of(json@),
{
    let mut line = json;
    line.push('\n');
    line
}

/// The request in a line, without the white space around it.
pub fn request_text(line: &str) -> (text: String)
    ensures
        text@ == trimmed(line@),
{
    trim(line)
}

/// A text without line breaks that was sent as a line is read back as it was, whatever
/// is sent behind it.
pub proof fn law_lines_are_read_back(text: Seq<char>, behind: Seq<char>)
    requires
        !text.contains('\n'),
    ensures
        first_line(line_of(text) + behind) == text,
    decreases text.len(),
{
    let s = line_of(text) + behind;
    if text.len() == 0 {
        assert(s[0] == '\n');
        assert(text =~= Seq::empty());
    } else {
        let rest = text.skip(1);
        assert(text.contains(text[0]));
        assert forall|i: int| 0 <= i < rest.len() implies rest[i] != '\n' by {
            assert(text.contains(text[i + 1]));
        }
        law_lines_are_read_back(rest, behind);
        assert(s.skip(1) =~= line_of(rest) + behind);
        assert(seq![text[0]] + rest =~= text);
    }
}

/// A request to the one who manages the watches.
#[derive(Debug)]
pub enum ManagerRequest {
    AddWatch { folder: FsPath },
    RemoveWatch { folder: FsPath },
    ListWatches,
}

/// What came from a control client.
#[derive(Debug)]
pub enum ClientLine {
    /// Nothing: the client has gone.
    Closed,
    /// A line that is no request; the text says why.
    Invalid(String),
    /// A request.
    Request(ControlRequest),
}

/// What to do for a control client.
#[derive(Debug)]
pub enum ControlAction {
    /// Nothing more.
    Close,
    /// Answer it.
    Reply(ControlResponse),
    /// Hand its request on, and answer it by `control_reply`.
    Forward(ManagerRequest),
}

/// What to do for a control client of which a line came.
pub fn handle_control_client(line: ClientLine) -> (action: ControlAction)
    ensures
        line is Closed <==> action is Close,
        line is Invalid <==> action is Reply,
        line matches ClientLine::Invalid(reason) ==> action->Reply_0@ == error_response(
            "invalid request: "@ + reason@,
        ),
        line matches ClientLine::Request(request) ==> action matches ControlAction::Forward(
            forwarded,
        ) && (match request {
            ControlRequest::AddWatch { folder } => forwarded == (ManagerRequest::AddWatch {
                folder,
            }),
            ControlRequest::RemoveWatch { folder } => forwarded == (ManagerRequest::RemoveWatch {
                folder,
            }),
            ControlRequest::ListWatches => forwarded == ManagerRequest::ListWatches,
        }),
{
    match line {
        ClientLine::Closed => ControlAction::Close,
        ClientLine::Invalid(reason) => {
            let message = concat("invalid request: ", reason.as_str());
            ControlAction::Reply(ControlResponse::error(message.as_str()))
        },
        ClientLine::Request(ControlRequest::AddWatch { folder }) => ControlAction::Forward(
            ManagerRequest::AddWatch { folder },
        ),
        ClientLine::Request(ControlRequest::RemoveWatch { folder }) => ControlAction::Forward(
            ManagerRequest::RemoveWatch { folder },
        ),
        ClientLine::Request(ControlRequest::ListWatches) => ControlAction::Forward(
            ManagerRequest::ListWatches,
        ),
    }
}

/// What came of a request that was handed on.
#[derive(Debug)]
pub enum ManagerReply {
    /// It could not be handed on.
    Unavailable,
    /// It was handed on and never answered.
    Silent,
    /// It was answered.
    Answered(ControlResponse),
}

/// The answer to a control client whose request was handed on.
pub fn control_reply(reply: ManagerReply) -> (response: ControlResponse)
    ensures
        reply is Unavailable ==> response@ == error_response("watch manager is unavailable"@),
        reply is Silent ==> response@ == error_response("watch manager did not respond"@),
        reply matches ManagerReply::Answered(r) ==> response == r,
{
    match reply {
        ManagerReply::Unavailable => ControlResponse::error("watch manager is unavailable"),
        ManagerReply::Silent => ControlResponse::error("watch manager did not respond"),
        ManagerReply::Answered(response) => response,
    }
}

/// What came from the broadcast to one of its subscribers.
#[derive(Debug)]
pub enum Received {
    /// A line.
    Line(String),
    /// That lines were lost, as the subscriber was too slow.
    Lagged,
    /// That no more will come.
    Closed,
}

/// What to do for a subscriber.
#[derive(Debug)]
pub enum WriterAction {
    /// Send it the line.
    Write(String),
    /// Wait for the next line.
    Continue,
    /// Nothing more.
    Stop,
}

/// What to do for a subscriber: each line is sent as it is, lost ones are passed over.
pub fn event_client_writer(received: Received) -> (action: WriterAction)
    ensures
        received matches Received::Line(line) ==> action == WriterAction::Write(line),
        received is Lagged ==> action is Continue,
        received is Closed ==> action is Stop,
{
    match received {
        Received::Line(line) => WriterAction::Write(line),
        Received::Lagged => WriterAction::Continue,
        Received::Closed => WriterAction::Stop,
    }
}

/// One step of making room for a socket.
#[derive(Debug)]
pub enum SocketStep {
    /// Make the directory and those above it.
    CreateDir(FsPath),
    /// Remove the file.
    RemoveFile(FsPath),
}

/// One step of making room for a socket.
pub enum SocketStepView {
    CreateDir(Seq<u8>),
    RemoveFile(Seq<u8>),
}

impl View for SocketStep {
    type V = SocketStepView;

    open spec fn view(&self) -> SocketStepView {
        match self {
            SocketStep::CreateDir(dir) => SocketStepView::CreateDir(dir@),
            SocketStep::RemoveFile(file) => SocketStepView::RemoveFile(file@),
        }
    }
}

/// The steps of making room for a socket: its directory is made, and what is in its
/// place is removed.
pub open spec fn socket_steps(path: Seq<u8>, present: bool) -> Seq<SocketStepView> {
    (match parent_of(path) {
        Some(dir) => seq![SocketStepView::CreateDir(dir)],
        None => seq![],
    }) + (if present {
        seq![SocketStepView::RemoveFile(path)]
    } else {
        seq![]
    })
}

/// The steps of making room for a socket; `present` says whether something is in its
/// place.
pub fn prepare_socket_path(path: &FsPath, present: bool) -> (steps: Vec<SocketStep>)
    ensures
        seq_view(steps@) == socket_steps(path@, present),
{
    let mut steps: Vec<SocketStep> = Vec::new();
    if let Some(dir) = path.parent() {
        steps.push(SocketStep::CreateDir(dir));
    }
    if present {
        steps.push(SocketStep::RemoveFile(path.clone()));
    }
    assert(seq_view(steps@) =~= socket_steps(path@, present));
    steps
}

/// Room is made for a socket by making its directory, where it has one, and then removing
/// what is in its place, where something is.
pub proof fn law_room_is_made_for_sockets(path: Seq<u8>, present: bool)
    ensures
        parent_of(path) matches Some(dir) ==> socket_steps(path, present).len() > 0
            && socket_steps(path, present)[0] == SocketStepView::CreateDir(dir),
        present ==> socket_steps(path, present).len() > 0 && socket_steps(path, present).last()
            == SocketStepView::RemoveFile(path),
        !present ==> !socket_steps(path, present).contains(SocketStepView::RemoveFile(path)),
        socket_steps(path, present).len() == (if parent_of(path) is Some {
            1int
        } else {
            0
        }) + (if present {
            1int
        } else {
            0
        }),
{
}

/// A line is the text with one line break behind it.
pub proof fn law_lines_end_with_a_break(text: Seq<char>)
    ensures
        line_of(text).len() == text.len() + 1,
        line_of(text).last() == '\n',
        line_of(text).drop_last() == text,
{
    assert(line_of(text).drop_last() =~= text);
}

/// Steps are seen with the path that they are about.
pub proof fn law_socket_steps_are_seen_whole(path: FsPath)
    ensures
        SocketStep::CreateDir(path)@ == SocketStepView::CreateDir(path@),
        SocketStep::RemoveFile(path)@ == SocketStepView::RemoveFile(path@),
{
}

} // verus!
