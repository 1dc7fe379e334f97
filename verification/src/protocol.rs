//! What goes over the event socket and the control socket.

use vstd::prelude::*;

use crate::fs_path::FsPath;
use crate::text::lossy_chars;
use crate::views::{option_view, seq_view};

verus! {

/// What happened.
#[derive(Debug, Clone, Copy, PartialEq, Eq, Structural, Hash)]
pub enum EventType {
    FileCreated,
    FileModified,
    FileDeleted,
    FileRenamed,
    DirCreated,
    DirModified,
    DirDeleted,
    DirRenamed,
    GitHeadChanged,
    GitIndexChanged,
    GitRefsChanged,
    GitPackedRefsChanged,
    GitChanged,
}

impl EventType {
    /// Whether it happened in Git's own data.
    pub open spec fn is_git(self) -> bool {
        ||| self is GitHeadChanged
        ||| self is GitIndexChanged
        ||| self is GitRefsChanged
        ||| self is GitPackedRefsChanged
        ||| self is GitChanged
    }

    /// The name of the event type on the wire.
    pub open spec fn wire_name(self) -> Seq<char> {
        match self {
            EventType::FileCreated => "file_created"@,
            EventType::FileModified => "file_modified"@,
            EventType::FileDeleted => "file_deleted"@,
            EventType::FileRenamed => "file_renamed"@,
            EventType::DirCreated => "dir_created"@,
            EventType::DirModified => "dir_modified"@,
            EventType::DirDeleted => "dir_deleted"@,
            EventType::DirRenamed => "dir_renamed"@,
            EventType::GitHeadChanged => "git_head_changed"@,
            EventType::GitIndexChanged => "git_index_changed"@,
            EventType::GitRefsChanged => "git_refs_changed"@,
            EventType::GitPackedRefsChanged => "git_packed_refs_changed"@,
            EventType::GitChanged => "git_changed"@,
        }
    }

    /// The name of the event type on the wire.
    pub fn as_str(self) -> (name: &'static str)
        ensures
            name@ == self.wire_name(),
            self is FileCreated ==> name@ == "file_created"@,
            self is FileModified ==> name@ == "file_modified"@,
            self is FileDeleted ==> name@ == "file_deleted"@,
            self is FileRenamed ==> name@ == "file_renamed"@,
            self is DirCreated ==> name@ == "dir_created"@,
            self is DirModified ==> name@ == "dir_modified"@,
            self is DirDeleted ==> name@ == "dir_deleted"@,
            self is DirRenamed ==> name@ == "dir_renamed"@,
            self is GitHeadChanged ==> name@ == "git_head_changed"@,
            self is GitIndexChanged ==> name@ == "git_index_changed"@,
            self is GitRefsChanged ==> name@ == "git_refs_changed"@,
            self is GitPackedRefsChanged ==> name@ == "git_packed_refs_changed"@,
            self is GitChanged ==> name@ == "git_changed"@,
    {
        match self {
            EventType::FileCreated => "file_created",
            EventType::FileModified => "file_modified",
            EventType::FileDeleted => "file_deleted",
            EventType::FileRenamed => "file_renamed",
            EventType::DirCreated => "dir_created",
            EventType::DirModified => "dir_modified",
            EventType::DirDeleted => "dir_deleted",
            EventType::DirRenamed => "dir_renamed",
            EventType::GitHeadChanged => "git_head_changed",
            EventType::GitIndexChanged => "git_index_changed",
            EventType::GitRefsChanged => "git_refs_changed",
            EventType::GitPackedRefsChanged => "git_packed_refs_changed",
            EventType::GitChanged => "git_changed",
        }
    }
}

/// An event as subscribers see it: `path` is relative to the folder, `git_path` to
/// the folder's Git directory.
#[derive(Debug, Clone)]
pub struct WireEvent {
    pub folder: String,
    pub event_type: EventType,
    pub path: Option<String>,
    pub git_path: Option<String>,
    pub ts_unix_ms: u128,
}

/// The texts of an event.
pub struct WireEventView {
    pub folder: Seq<char>,
    pub event_type: EventType,
    pub path: Option<Seq<char>>,
    pub git_path: Option<Seq<char>>,
    pub ts_unix_ms: u128,
}

impl View for WireEvent {
    type V = WireEventView;

    open spec fn view(&self) -> WireEventView {
        WireEventView {
            folder: self.folder@,
            event_type: self.event_type,
            path: option_view(self.path),
            git_path: option_view(self.git_path),
            ts_unix_ms: self.ts_unix_ms,
        }
    }
}

/// What a control client asks for.
#[derive(Debug)]
pub enum ControlRequest {
    AddWatch { folder: FsPath },
    RemoveWatch { folder: FsPath },
    ListWatches,
}

/// What a control client is answered.
#[derive(Debug, Clone, PartialEq, Eq)]
pub struct ControlResponse {
    pub ok: bool,
    pub message: Option<String>,
    pub error: Option<String>,
    pub folders: Option<Vec<String>>,
}

/// The texts of an answer.
pub struct ControlResponseView {
    pub ok: bool,
    pub message: Option<Seq<char>>,
    pub error: Option<Seq<char>>,
    pub folders: Option<Seq<Seq<char>>>,
}

impl View for ControlResponse {
    type V = ControlResponseView;

    open spec fn view(&self) -> ControlResponseView {
        ControlResponseView {
            ok: self.ok,
            message: option_view(self.message),
            error: option_view(self.error),
            folders: match self.folders {
                Some(folders) => Some(seq_view(folders@)),
                None => None,
            },
        }
    }
}

/// The answer that something was done.
pub open spec fn success_response(message: Seq<char>) -> ControlResponseView {
    ControlResponseView { ok: true, message: Some(message), error: None, folders: None }
}

/// The answer that something failed.
pub open spec fn error_response(message: Seq<char>) -> ControlResponseView {
    ControlResponseView { ok: false, message: None, error: Some(message), folders: None }
}

/// The answer that lists folders.
pub open spec fn list_response(folders: Seq<Seq<u8>>) -> ControlResponseView {
    ControlResponseView {
        ok: true,
        message: None,
        error: None,
        folders: Some(folders.map_values(|f: Seq<u8>| lossy_chars(f))),
    }
}

impl ControlResponse {
    /// An answer that says nothing but whether it went well.
    fn new(ok: bool) -> (response: ControlResponse)
        ensures
            response@ == (ControlResponseView { ok, message: None, error: None, folders: None }),
            response.folders is None,
    {
        ControlResponse { ok, message: None, error: None, folders: None }
    }

    /// The answer that something was done.
    pub fn success_message(message: &str) -> (response: ControlResponse)
        ensures
            response@ == success_response(message@),
    {
        ControlResponse { message: Some(message.to_owned()), ..ControlResponse::new(true) }
    }

    /// The answer that lists folders.
    pub fn list(folders: &Vec<FsPath>) -> (response: ControlResponse)
        ensures
            response@ == list_response(seq_view(folders@)),
    {
        let mut shown: Vec<String> = Vec::new();
        let mut i: usize = 0;
        while i < folders.len()
            invariant
                i <= folders@.len(),
                shown@.len() == i,
                forall|k: int| 0 <= k < i ==> (#[trigger] shown@[k])@ == lossy_chars(folders@[k]@),
            decreases folders@.len() - i,
        {
            shown.push(folders[i].display());
            i += 1;
        }
        assert(seq_view(shown@) =~= seq_view(folders@).map_values(|f: Seq<u8>| lossy_chars(f)));
        ControlResponse { folders: Some(shown), ..ControlResponse::new(true) }
    }

    /// The answer that something failed.
    pub fn error(message: &str) -> (response: ControlResponse)
        ensures
            response@ == error_response(message@),
    {
        ControlResponse { error: Some(message.to_owned()), ..ControlResponse::new(false) }
    }
}

/// No two event types have the same name on the wire.
pub proof fn law_event_names_are_distinct(a: EventType, b: EventType)
    requires
        a.wire_name() == b.wire_name(),
    ensures
        a == b,
{
    reveal_strlit("file_created");
    reveal_strlit("file_modified");
    reveal_strlit("file_deleted");
    reveal_strlit("file_renamed");
    reveal_strlit("dir_created");
    reveal_strlit("dir_modified");
    reveal_strlit("dir_deleted");
    reveal_strlit("dir_renamed");
    reveal_strlit("git_head_changed");
    reveal_strlit("git_index_changed");
    reveal_strlit("git_refs_changed");
    reveal_strlit("git_packed_refs_changed");
    reveal_strlit("git_changed");
    let x = a.wire_name();
    let y = b.wire_name();
    assert(x.len() == y.len() && x[0] == y[0] && x[1] == y[1] && x[4] == y[4] && x[5] == y[5]
        && x[6] == y[6] && x[7] == y[7] && x[8] == y[8]);
}

/// Answers say one thing each: that something was done, that something failed, or what is
/// listed.
pub proof fn law_answers_say_one_thing(text: Seq<char>, folders: Seq<Seq<u8>>)
    ensures
        success_response(text).ok && success_response(text).message == Some(text),
        success_response(text).error is None && success_response(text).folders is None,
        !error_response(text).ok && error_response(text).error == Some(text),
        error_response(text).message is None && error_response(text).folders is None,
        list_response(folders).ok && list_response(folders).message is None,
        list_response(folders).error is None,
        list_response(folders).folders matches Some(listed) && listed.len() == folders.len()
            && forall|i: int|
            0 <= i < folders.len() ==> #[trigger] listed[i] == lossy_chars(folders[i]),
{
}

/// Events and answers are seen with all that they hold.
pub proof fn law_messages_are_seen_whole(event: WireEvent, response: ControlResponse)
    ensures
        event@.folder == event.folder@,
        event@.event_type == event.event_type,
        event.path matches Some(path) ==> event@.path == Some(path@),
        event.path is None ==> event@.path is None,
        event.git_path matches Some(path) ==> event@.git_path == Some(path@),
        event.git_path is None ==> event@.git_path is None,
        event@.ts_unix_ms == event.ts_unix_ms,
        response@.ok == response.ok,
        response.message matches Some(text) ==> response@.message == Some(text@),
        response.message is None ==> response@.message is None,
        response.error matches Some(text) ==> response@.error == Some(text@),
        response.error is None ==> response@.error is None,
        response.folders is None ==> response@.folders is None,
        response.folders matches Some(folders) ==> (response@.folders matches Some(seen)
            && seen.len() == folders@.len() && forall|i: int|
            0 <= i < folders@.len() ==> #[trigger] seen[i] == folders@[i]@),
{
}

} // verus!
