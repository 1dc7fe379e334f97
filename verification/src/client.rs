//! The client's side of the two sockets.

use vstd::prelude::*;

use crate::error::{IoError, IoErrorKind, IoErrorView};
use crate::fs_path::FsPath;
use crate::protocol::{ControlResponse, ControlResponseView};
use crate::server::request_text;
use crate::text::{lossy_chars, trimmed};
use crate::views::{option_view, result_view, seq_view};

verus! {

/// Where the daemon sends its events.
pub const DEFAULT_EVENT_SOCKET: &'static str = "/tmp/gongd.sock";

/// Where the daemon takes requests.
pub const DEFAULT_CONTROL_SOCKET: &'static str = "/tmp/gongd.ctl.sock";

/// The client's version.
pub const VERSION: &'static str = "v0.1.0";

/// The milliseconds between two attempts to connect.
pub const RECONNECT_DELAY_MS: u64 = 100;

/// What an event says has happened.
#[derive(Debug, Clone, Copy, PartialEq, Eq, Structural)]
pub enum EventType {
    FileCreated,
    FileModified,
    FileDeleted,
    FileRenamed,
    DirCreated,
    DirDeleted,
    DirRenamed,
    RepoHeadChanged,
    RepoIndexChanged,
    RepoRefsChanged,
    RepoPackedRefsChanged,
    RepoChanged,
}

/// An event that a subscriber received.
#[derive(Debug, Clone, PartialEq, Eq)]
pub struct Event {
    pub repo: String,
    pub event_type: EventType,
    pub path: Option<String>,
    pub git_path: Option<String>,
    pub ts_unix_ms: u64,
}

/// Why a request or a subscription failed.
#[derive(Debug)]
pub enum Error {
    /// Input or output failed.
    Io(IoError),
    /// What came was not the JSON expected; the text says why.
    Json(String),
    /// The daemon refused.
    Daemon(String),
}

/// Why a request or a subscription failed.
pub enum ErrorView {
    Io(IoErrorView),
    Json(Seq<char>),
    Daemon(Seq<char>),
}

impl View for Error {
    type V = ErrorView;

    open spec fn view(&self) -> ErrorView {
        match self {
            Error::Io(error) => ErrorView::Io(error@),
            Error::Json(text) => ErrorView::Json(text@),
            Error::Daemon(text) => ErrorView::Daemon(text@),
        }
    }
}

impl ErrorView {
    /// The error in words.
    pub open spec fn text(self) -> Seq<char> {
        match self {
            ErrorView::Io(error) => error.message,
            ErrorView::Json(text) => text,
            ErrorView::Daemon(text) => text,
        }
    }
}

impl Error {
    /// The error in words.
    pub fn text(&self) -> (text: String)
        ensures
            text@ == self@.text(),
    {
        match self {
            Error::Io(error) => error.message.clone(),
            Error::Json(text) => text.clone(),
            Error::Daemon(text) => text.clone(),
        }
    }
}

impl From<IoError> for Error {
    fn from(error: IoError) -> (wrapped: Error) {
        Error::Io(error)
    }
}

impl vstd::std_specs::convert::FromSpecImpl<IoError> for Error {
    open spec fn obeys_from_spec() -> bool {
        true
    }

    open spec fn from_spec(error: IoError) -> Error {
        Error::Io(error)
    }
}

/// What a request asks the daemon to do with a folder.
#[derive(Debug, Clone, Copy, PartialEq, Eq, Structural)]
pub enum FolderControlOp {
    AddWatch,
    RemoveWatch,
}

impl FolderControlOp {
    /// The name of the operation on the wire.
    pub open spec fn wire_name(self) -> Seq<char> {
        match self {
            FolderControlOp::AddWatch => "add_watch"@,
            FolderControlOp::RemoveWatch => "remove_watch"@,
        }
    }

    /// The name of the operation on the wire.
    pub fn as_str(self) -> (name: &'static str)
        ensures
            name@ == self.wire_name(),
            self is AddWatch ==> name@ == "add_watch"@,
            self is RemoveWatch ==> name@ == "remove_watch"@,
    {
        match self {
            FolderControlOp::AddWatch => "add_watch",
            FolderControlOp::RemoveWatch => "remove_watch",
        }
    }
}

/// A request: the socket to send it to, and what it says.
#[derive(Debug)]
pub struct ClientRequest {
    pub socket: FsPath,
    pub op: &'static str,
    pub folder: Option<String>,
}

/// A request: the socket to send it to, and what it says.
pub struct ClientRequestView {
    pub socket: Seq<u8>,
    pub op: Seq<char>,
    pub folder: Option<Seq<char>>,
}

impl View for ClientRequest {
    type V = ClientRequestView;

    open spec fn view(&self) -> ClientRequestView {
        ClientRequestView {
            socket: self.socket@,
            op: self.op@,
            folder: option_view(self.folder),
        }
    }
}

/// A client of the daemon.
#[derive(Debug)]
pub struct Client {
    pub event_socket: FsPath,
    pub control_socket: FsPath,
}

impl Client {
    /// A client of the daemon at its default sockets.
    pub fn new() -> (client: Client)
        ensures
            client.event_socket@ == vstd::utf8::encode_utf8(DEFAULT_EVENT_SOCKET@),
            client.control_socket@ == vstd::utf8::encode_utf8(DEFAULT_CONTROL_SOCKET@),
    {
        Client {
            event_socket: FsPath::from_text(DEFAULT_EVENT_SOCKET),
            control_socket: FsPath::from_text(DEFAULT_CONTROL_SOCKET),
        }
    }

    /// A client of the daemon at the given sockets.
    pub fn with_sockets(event_socket: FsPath, control_socket: FsPath) -> (client: Client)
        ensures
            client.event_socket == event_socket,
            client.control_socket == control_socket,
    {
        Client { event_socket, control_socket }
    }

    /// The request to watch a folder. Its reply is read by `control_outcome`.
    pub fn add_watch(&self, folder: &FsPath) -> (request: ClientRequest)
        ensures
            request@ == (ClientRequestView {
                socket: self.control_socket@,
                op: "add_watch"@,
                folder: Some(lossy_chars(folder@)),
            }),
    {
        self.folder_control(FolderControlOp::AddWatch, folder)
    }

    /// The request to stop watching a folder. Its reply is read by `control_outcome`.
    pub fn remove_watch(&self, folder: &FsPath) -> (request: ClientRequest)
        ensures
            request@ == (ClientRequestView {
                socket: self.control_socket@,
                op: "remove_watch"@,
                folder: Some(lossy_chars(folder@)),
            }),
    {
        self.folder_control(FolderControlOp::RemoveWatch, folder)
    }

    /// The request to list what is watched. Its reply is read by `list_outcome`.
    pub fn list_watches(&self) -> (request: ClientRequest)
        ensures
            request@ == (ClientRequestView {
                socket: self.control_socket@,
                op: "list_watches"@,
                folder: None,
            }),
    {
        ClientRequest { socket: self.control_socket.clone(), op: "list_watches", folder: None }
    }

    /// The request to do something with a folder.
    fn folder_control(&self, op: FolderControlOp, folder: &FsPath) -> (request: ClientRequest)
        ensures
            request@ == (ClientRequestView {
                socket: self.control_socket@,
                op: op.wire_name(),
                folder: Some(lossy_chars(folder@)),
            }),
    {
        ClientRequest {
            socket: self.control_socket.clone(),
            op: op.as_str(),
            folder: Some(folder.display()),
        }
    }

    /// A subscription to the daemon's events, at the socket to connect to.
    pub fn subscribe(&self) -> (stream: EventStream)
        ensures
            stream.socket_path@ == self.event_socket@,
    {
        EventStream { socket_path: self.event_socket.clone() }
    }
}

impl Clone for Client {
    fn clone(&self) -> (copy: Client)
        ensures
            copy.event_socket@ == self.event_socket@,
            copy.control_socket@ == self.control_socket@,
    {
        Client {
            event_socket: self.event_socket.clone(),
            control_socket: self.control_socket.clone(),
        }
    }
}

impl Default for Client {
    fn default() -> (client: Client)
        ensures
            client.event_socket@ == vstd::utf8::encode_utf8(DEFAULT_EVENT_SOCKET@),
            client.control_socket@ == vstd::utf8::encode_utf8(DEFAULT_CONTROL_SOCKET@),
    {
        Client::new()
    }
}

/// What a request comes to: the response where the daemon says that it succeeded, and
/// the daemon's error otherwise.
pub open spec fn outcome_of(reply: Result<ControlResponseView, ErrorView>) -> Result<
    ControlResponseView,
    ErrorView,
> {
    match reply {
        Err(error) => Err(error),
        Ok(response) => if response.ok {
            Ok(response)
        } else {
            Err(
                ErrorView::Daemon(
                    match response.error {
                        Some(error) => error,
                        None => "gongd returned an unsuccessful response"@,
                    },
                ),
            )
        },
    }
}

/// What a request comes to, once its reply was read or could not be.
pub fn control_outcome(reply: Result<ControlResponse, Error>) -> (outcome: Result<
    ControlResponse,
    Error,
>)
    ensures
        result_view(outcome) == outcome_of(result_view(reply)),
{
    match reply {
        Err(error) => Err(error),
        Ok(response) => {
            if response.ok {
                return Ok(response);
            }
            match response.error {
                Some(error) => Err(Error::Daemon(error)),
                None => Err(Error::Daemon("gongd returned an unsuccessful response".to_owned())),
            }
        },
    }
}

/// The folders that a request to list them comes to: none where the response has no
/// list.
pub open spec fn listing_of(reply: Result<ControlResponseView, ErrorView>) -> Result<
    Seq<Seq<char>>,
    ErrorView,
> {
    match outcome_of(reply) {
        Err(error) => Err(error),
        Ok(response) => Ok(
            match response.folders {
                Some(folders) => folders,
                None => seq![],
            },
        ),
    }
}

/// The folders that a request to list them comes to.
pub fn list_outcome(reply: Result<ControlResponse, Error>) -> (outcome: Result<Vec<String>, Error>)
    ensures
        outcome is Ok <==> listing_of(result_view(reply)) is Ok,
        outcome matches Ok(folders) ==> seq_view(folders@) == listing_of(result_view(reply))->Ok_0,
        outcome matches Err(error) ==> error@ == listing_of(result_view(reply))->Err_0,
{
    match control_outcome(reply) {
        Err(error) => Err(error),
        Ok(response) => match response.folders {
            Some(folders) => Ok(folders),
            None => {
                let none: Vec<String> = Vec::new();
                assert(seq_view(none@) =~= seq![]);
                Ok(none)
            },
        },
    }
}

/// Whether an error means that the daemon is away for now.
pub open spec fn is_passing(kind: IoErrorKind) -> bool {
    ||| kind is NotFound
    ||| kind is ConnectionRefused
    ||| kind is ConnectionAborted
    ||| kind is ConnectionReset
    ||| kind is NotConnected
    ||| kind is AddrNotAvailable
}

/// Whether an error means that the daemon is away for now.
pub fn is_reconnectable_io_error(error: &IoError) -> (yes: bool)
    ensures
        yes == is_passing(error.kind),
{
    matches!(
        error.kind,
        IoErrorKind::NotFound
            | IoErrorKind::ConnectionRefused
            | IoErrorKind::ConnectionAborted
            | IoErrorKind::ConnectionReset
            | IoErrorKind::NotConnected
            | IoErrorKind::AddrNotAvailable
    )
}

/// A subscription to the daemon's events.
#[derive(Debug)]
pub struct EventStream {
    pub socket_path: FsPath,
}

/// What came of the last step of a subscription.
#[derive(Debug)]
pub enum StreamInput {
    /// A line was read; an empty text where the connection has ended.
    Line(String),
    /// No line could be read.
    ReadFailed(IoError),
    /// The text was an event.
    Parsed(Event),
    /// The text was no event; the text here says why.
    Malformed(String),
    /// The daemon was reached.
    Connected,
    /// The daemon could not be reached.
    ConnectFailed(IoError),
}

/// The next step of a subscription.
#[derive(Debug)]
pub enum StreamStep {
    /// Read a line.
    ReadLine,
    /// Make an event of the text.
    Parse(String),
    /// Connect to the socket.
    Connect(FsPath),
    /// Let the milliseconds pass, then connect to the socket.
    WaitAndConnect(u64, FsPath),
    /// Hand the event out.
    Deliver(Event),
    /// Give up.
    Fail(Error),
}

impl EventStream {
    /// Whether the step connects to the daemon at once.
    pub open spec fn connects(&self, step: StreamStep) -> bool {
        step matches StreamStep::Connect(path) && path@ == self.socket_path@
    }

    /// Whether the step connects to the daemon after the pause.
    pub open spec fn retries(&self, step: StreamStep) -> bool {
        step matches StreamStep::WaitAndConnect(pause, path) && pause == RECONNECT_DELAY_MS && path@
            == self.socket_path@
    }

    /// Whether the step gives up with the error.
    pub open spec fn fails(&self, step: StreamStep, error: ErrorView) -> bool {
        step matches StreamStep::Fail(e) && e@ == error
    }

    /// Whether the step is the one to take after the input. An empty line counts as the
    /// end of the connection, after which, as after an error that passes, the daemon is
    /// sought again for as long as it takes. Other errors end the subscription.
    pub open spec fn follows(&self, input: StreamInput, step: StreamStep) -> bool {
        match input {
            StreamInput::Line(line) => if trimmed(line@).len() == 0 {
                self.connects(step)
            } else {
                step matches StreamStep::Parse(text) && text@ == trimmed(line@)
            },
            StreamInput::ReadFailed(error) => if is_passing(error.kind) {
                self.connects(step)
            } else {
                self.fails(step, ErrorView::Io(error@))
            },
            StreamInput::Parsed(event) => step == StreamStep::Deliver(event),
            StreamInput::Malformed(reason) => self.fails(step, ErrorView::Json(reason@)),
            StreamInput::Connected => step is ReadLine,
            StreamInput::ConnectFailed(error) => if is_passing(error.kind) {
                self.retries(step)
            } else {
                self.fails(step, ErrorView::Io(error@))
            },
        }
    }

    /// The step to take after the input, on the way to the next event.
    pub fn next_event(&self, input: StreamInput) -> (step: StreamStep)
        ensures
            self.follows(input, step),
    {
        match input {
            StreamInput::Line(line) => match read_optional_json_line(line.as_str()) {
                Some(text) => StreamStep::Parse(text),
                None => StreamStep::Connect(self.socket_path.clone()),
            },
            StreamInput::ReadFailed(error) => if is_reconnectable_io_error(&error) {
                StreamStep::Connect(self.socket_path.clone())
            } else {
                StreamStep::Fail(Error::from(error))
            },
            StreamInput::Parsed(event) => StreamStep::Deliver(event),
            StreamInput::Malformed(reason) => StreamStep::Fail(Error::Json(reason)),
            StreamInput::Connected => StreamStep::ReadLine,
            StreamInput::ConnectFailed(error) => self.reconnect_event_reader(error),
        }
    }

    /// The step to take after the daemon could not be reached.
    fn reconnect_event_reader(&self, error: IoError) -> (step: StreamStep)
        ensures
            self.follows(StreamInput::ConnectFailed(error), step),
    {
        if is_reconnectable_io_error(&error) {
            StreamStep::WaitAndConnect(RECONNECT_DELAY_MS, self.socket_path.clone())
        } else {
            StreamStep::Fail(Error::from(error))
        }
    }
}

/// The text in a line, without the white space around it; none where there is nothing
/// else in it.
pub fn read_optional_json_line(line: &str) -> (text: Option<String>)
    ensures
        text is Some <==> trimmed(line@).len() > 0,
        text matches Some(t) ==> t@ == trimmed(line@),
{
    let text = request_text(line);
    if text.as_str().is_empty() {
        None
    } else {
        Some(text)
    }
}

/// A request to add a watch is told from one to remove it.
pub proof fn law_operations_have_distinct_names(a: FolderControlOp, b: FolderControlOp)
    requires
        a.wire_name() == b.wire_name(),
    ensures
        a == b,
{
    reveal_strlit("add_watch");
    reveal_strlit("remove_watch");
    assert("add_watch"@.len() != "remove_watch"@.len());
}

/// A subscription outlives the daemon: neither the end of the connection nor an error
/// that passes gives it up or hands out an event.
pub proof fn law_subscription_outlives_the_daemon(
    stream: EventStream,
    input: StreamInput,
    step: StreamStep,
)
    requires
        stream.follows(input, step),
        (match input {
            StreamInput::Line(line) => trimmed(line@).len() == 0,
            StreamInput::ReadFailed(error) => is_passing(error.kind),
            StreamInput::ConnectFailed(error) => is_passing(error.kind),
            _ => false,
        }),
    ensures
        step is Connect || step is WaitAndConnect,
{
}

/// A refusal is reported as an error, and only a success that the daemon reported as a
/// success.
pub proof fn law_refusals_are_reported(reply: Result<ControlResponseView, ErrorView>)
    ensures
        outcome_of(reply) is Ok <==> (reply matches Ok(response) && response.ok),
        reply matches Ok(response) ==> !response.ok && response.error is Some ==> outcome_of(reply)
            == Err::<ControlResponseView, ErrorView>(ErrorView::Daemon(response.error->0)),
{
}

/// A success is the response as the daemon gave it, a refusal the daemon's reason or, where
/// it gave none, that there was one; what failed before is handed on.
pub proof fn law_replies_come_to_what_they_say(
    response: ControlResponseView,
    error: ErrorView,
)
    ensures
        response.ok ==> outcome_of(Ok(response)) == Ok::<ControlResponseView, ErrorView>(response),
        !response.ok ==> outcome_of(Ok(response)) == Err::<ControlResponseView, ErrorView>(
            ErrorView::Daemon(
                if response.error is Some {
                    response.error->0
                } else {
                    "gongd returned an unsuccessful response"@
                },
            ),
        ),
        outcome_of(Err(error)) == Err::<ControlResponseView, ErrorView>(error),
        response.ok && response.folders is Some ==> listing_of(Ok(response)) == Ok::<
            Seq<Seq<char>>,
            ErrorView,
        >(response.folders->0),
        response.ok && response.folders is None ==> (listing_of(Ok(response)) matches Ok(none)
            && none.len() == 0),
        !response.ok ==> listing_of(Ok(response)) is Err,
        !response.ok ==> listing_of(Ok(response))->Err_0 == outcome_of(Ok(response))->Err_0,
        listing_of(Err(error)) == Err::<Seq<Seq<char>>, ErrorView>(error),
{
}

/// The errors that mean that the daemon is away for now are these six.
pub proof fn law_passing_errors_are_these(kind: IoErrorKind)
    ensures
        is_passing(kind) <==> (kind == IoErrorKind::NotFound || kind
            == IoErrorKind::ConnectionRefused || kind == IoErrorKind::ConnectionAborted || kind
            == IoErrorKind::ConnectionReset || kind == IoErrorKind::NotConnected || kind
            == IoErrorKind::AddrNotAvailable),
{
}

/// What a subscription does next: an event is handed out as it came, a line is read for
/// what is in it, the daemon is sought at the socket where the subscription was made, at
/// once after a lost connection and after a pause when it could not be reached, and any
/// other error ends the subscription.
pub proof fn law_subscriptions_go_on(stream: EventStream, input: StreamInput, step: StreamStep)
    requires
        stream.follows(input, step),
    ensures
        input matches StreamInput::Parsed(event) ==> step == StreamStep::Deliver(event),
        input is Connected ==> step is ReadLine,
        input matches StreamInput::Malformed(reason) ==> (step matches StreamStep::Fail(
            Error::Json(text),
        ) && text@ == reason@),
        input matches StreamInput::Line(line) ==> trimmed(line@).len() > 0 ==> (step matches
            StreamStep::Parse(text) && text@ == trimmed(line@)),
        input matches StreamInput::Line(line) ==> trimmed(line@).len() == 0 ==> (step matches
            StreamStep::Connect(socket) && socket@ == stream.socket_path@),
        input matches StreamInput::ReadFailed(error) ==> is_passing(error.kind) ==> (step matches
            StreamStep::Connect(socket) && socket@ == stream.socket_path@),
        input matches StreamInput::ReadFailed(error) ==> !is_passing(error.kind) ==> (step matches
            StreamStep::Fail(Error::Io(same)) && same@ == error@),
        input matches StreamInput::ConnectFailed(error) ==> is_passing(error.kind) ==> (step matches
            StreamStep::WaitAndConnect(pause, socket) && pause == 100 && socket@
            == stream.socket_path@),
        input matches StreamInput::ConnectFailed(error) ==> !is_passing(error.kind) ==> (
        step matches StreamStep::Fail(Error::Io(same)) && same@ == error@),
{
}

/// Errors and requests are seen with what they hold.
pub proof fn law_requests_are_seen_whole(error: IoError, text: String, request: ClientRequest)
    ensures
        Error::Io(error)@ == ErrorView::Io(error@),
        Error::Json(text)@ == ErrorView::Json(text@),
        Error::Daemon(text)@ == ErrorView::Daemon(text@),
        ErrorView::Io(error@).text() == error.message@,
        ErrorView::Json(text@).text() == text@,
        ErrorView::Daemon(text@).text() == text@,
        request@.socket == request.socket@,
        request@.op == request.op@,
        request.folder matches Some(folder) ==> request@.folder == Some(folder@),
        request.folder is None ==> request@.folder is None,
{
}

} // verus!
