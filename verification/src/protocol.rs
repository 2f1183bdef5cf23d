//! The local protocol: one request line, one response line.

use vstd::prelude::*;
use vstd::utf8::encode_utf8;

use crate::model::EventView;
use crate::records::{InboundEvent, ProjectRoomBinding};
use crate::store::{binding_pairs, option_event};
use crate::text::{is_white, option_text, to_chars, to_text, trim_end, trimmed_end};

verus! {

broadcast use vstd::string::group_string_axioms;

/// Longest request line, in bytes, its newline counted.
pub const MAX_REQUEST_BYTES: usize = 65_536;

/// How a turn ended.
#[derive(Clone, Copy, Debug, PartialEq, Eq, Structural)]
pub enum ActivityOutcome {
    Done,
    Stopped,
}

/// What a client asks for.
#[derive(Debug)]
pub enum Request {
    Status,
    Claim { room_id: Option<String> },
    ActivityStart { event_id: String },
    ActivityHeartbeat { event_id: String, status_event_id: Option<String>, long_running: bool },
    ActivityStop {
        event_id: String,
        status_event_id: Option<String>,
        outcome: ActivityOutcome,
    },
    Release { event_id: String },
    Send { event_id: String, idempotency_key: String, body: String },
    ProjectRoomAdd { project_slug: String, display_name: Option<String> },
    ProjectRoomRemove { project_slug: String },
    ProjectRoomList,
}

/// What a client is answered.
#[derive(Debug)]
pub struct Response {
    pub ok: bool,
    pub status: Option<&'static str>,
    pub event: Option<InboundEvent>,
    pub queued: Option<u64>,
    pub claimed: Option<u64>,
    pub completed: Option<u64>,
    pub matrix_event_id: Option<String>,
    pub room_id: Option<String>,
    pub project_rooms: Option<Vec<ProjectRoomBinding>>,
    pub error: Option<&'static str>,
}

/// What a response says.
#[verifier::ext_equal]
pub struct ResponseView {
    pub ok: bool,
    pub status: Option<Seq<char>>,
    pub event: Option<EventView>,
    pub queued: Option<u64>,
    pub claimed: Option<u64>,
    pub completed: Option<u64>,
    pub matrix_event_id: Option<Seq<char>>,
    pub room_id: Option<Seq<char>>,
    pub project_rooms: Option<Seq<(Seq<char>, Seq<char>)>>,
    pub error: Option<Seq<char>>,
}

/// The characters that an optional fixed string holds.
pub open spec fn option_fixed(value: Option<&'static str>) -> Option<Seq<char>> {
    match value {
        Some(text) => Some(text@),
        None => None,
    }
}

impl View for Response {
    type V = ResponseView;

    open spec fn view(&self) -> ResponseView {
        ResponseView {
            ok: self.ok,
            status: option_fixed(self.status),
            event: option_event(self.event),
            queued: self.queued,
            claimed: self.claimed,
            completed: self.completed,
            matrix_event_id: option_text(self.matrix_event_id),
            room_id: option_text(self.room_id),
            project_rooms: match self.project_rooms {
                Some(list) => Some(binding_pairs(list@)),
                None => None,
            },
            error: option_fixed(self.error),
        }
    }
}

/// A response of success that says nothing but its status.
pub open spec fn plain_response(status: Seq<char>) -> ResponseView {
    ResponseView {
        ok: true,
        status: Some(status),
        event: None,
        queued: None,
        claimed: None,
        completed: None,
        matrix_event_id: None,
        room_id: None,
        project_rooms: None,
        error: None,
    }
}

/// The response to a status request.
pub open spec fn status_response(queued: u64, claimed: u64, completed: u64) -> ResponseView {
    ResponseView {
        queued: Some(queued),
        claimed: Some(claimed),
        completed: Some(completed),
        ..plain_response("ready"@)
    }
}

/// The response to a claim.
pub open spec fn claim_response(event: Option<EventView>) -> ResponseView {
    ResponseView {
        event,
        ..plain_response(
            if event is Some {
                "claimed"@
            } else {
                "empty"@
            },
        )
    }
}

/// The response to a finished operation.
pub open spec fn done_response(status: Seq<char>, matrix_event_id: Option<Seq<char>>) -> ResponseView {
    ResponseView { matrix_event_id, ..plain_response(status) }
}

/// The response that names a room.
pub open spec fn room_response(status: Seq<char>, room_id: Seq<char>) -> ResponseView {
    ResponseView { room_id: Some(room_id), ..plain_response(status) }
}

/// The response that lists project rooms.
pub open spec fn rooms_response(bindings: Seq<(Seq<char>, Seq<char>)>) -> ResponseView {
    ResponseView { project_rooms: Some(bindings), ..plain_response("project_rooms"@) }
}

/// The response of failure.
pub open spec fn error_response(error: Seq<char>) -> ResponseView {
    ResponseView { ok: false, status: None, error: Some(error), ..plain_response(error) }
}

impl Response {
    /// The response to a status request.
    pub fn status(queued: u64, claimed: u64, completed: u64) -> (r: Self)
        ensures
            r@ == status_response(queued, claimed, completed),
    {
        Self {
            ok: true,
            status: Some("ready"),
            event: None,
            queued: Some(queued),
            claimed: Some(claimed),
            completed: Some(completed),
            matrix_event_id: None,
            room_id: None,
            project_rooms: None,
            error: None,
        }
    }

    /// The response to a claim.
    pub fn claim(event: Option<InboundEvent>) -> (r: Self)
        ensures
            r@ == claim_response(option_event(event)),
            r.event == event,
    {
        Self {
            ok: true,
            status: Some(
                if event.is_some() {
                    "claimed"
                } else {
                    "empty"
                },
            ),
            event,
            queued: None,
            claimed: None,
            completed: None,
            matrix_event_id: None,
            room_id: None,
            project_rooms: None,
            error: None,
        }
    }

    /// The response to a finished operation.
    pub fn done(status: &'static str, matrix_event_id: Option<String>) -> (r: Self)
        ensures
            r@ == done_response(status@, option_text(matrix_event_id)),
            r.matrix_event_id == matrix_event_id,
    {
        Self {
            ok: true,
            status: Some(status),
            event: None,
            queued: None,
            claimed: None,
            completed: None,
            matrix_event_id,
            room_id: None,
            project_rooms: None,
            error: None,
        }
    }

    /// The response that names a room.
    pub fn room(status: &'static str, room_id: String) -> (r: Self)
        ensures
            r@ == room_response(status@, room_id@),
            r.room_id == Some(room_id),
    {
        Self {
            ok: true,
            status: Some(status),
            event: None,
            queued: None,
            claimed: None,
            completed: None,
            matrix_event_id: None,
            room_id: Some(room_id),
            project_rooms: None,
            error: None,
        }
    }

    /// The response that lists project rooms.
    pub fn project_rooms(bindings: Vec<ProjectRoomBinding>) -> (r: Self)
        ensures
            r@ == rooms_response(binding_pairs(bindings@)),
            r.project_rooms == Some(bindings),
    {
        Self {
            ok: true,
            status: Some("project_rooms"),
            event: None,
            queued: None,
            claimed: None,
            completed: None,
            matrix_event_id: None,
            room_id: None,
            project_rooms: Some(bindings),
            error: None,
        }
    }

    /// The response of failure.
    pub fn error(error: &'static str) -> (r: Self)
        ensures
            r@ == error_response(error@),
    {
        Self {
            ok: false,
            status: None,
            event: None,
            queued: None,
            claimed: None,
            completed: None,
            matrix_event_id: None,
            room_id: None,
            project_rooms: None,
            error: Some(error),
        }
    }
}

// ---------------------------------------------------------------------------
// Lines
// ---------------------------------------------------------------------------

/// True for a line that may hold a request: within the limit, and ended by a newline.
pub open spec fn is_request_line(line: Seq<char>) -> bool {
    encode_utf8(line).len() <= MAX_REQUEST_BYTES && line.len() > 0 && line.last() == '\n'
}

/// The text of the request on a line, or nothing when the line is too long or not ended by a
/// newline.
pub fn request_text(line: &str) -> (r: Option<String>)
    ensures
        option_text(r) == if is_request_line(line@) {
            Some(trim_end(line@))
        } else {
            None
        },
{
    if line.as_bytes().len() > MAX_REQUEST_BYTES {
        return None;
    }
    let chars = to_chars(line);
    let n: usize = chars.len();
    if n == 0 || chars[n - 1] != '\n' {
        return None;
    }
    Some(to_text(trimmed_end(chars.as_slice())))
}

/// The line that carries a serialised response.
pub fn response_line(payload: Vec<u8>) -> (r: Vec<u8>)
    ensures
        r@ == payload@.push(10u8),
{
    let mut line = payload;
    line.push(10u8);
    line
}

/// A line holds a request when it is a text and a newline, and has at most 65536 bytes. The request
/// is the text, where that does not end in white space.
pub proof fn law_requests_are_ended_by_newlines(line: Seq<char>, text: Seq<char>)
    ensures
        is_request_line(line) <==> encode_utf8(line).len() <= 65536 && exists|before: Seq<char>|
            line == #[trigger] (before + seq!['\n']),
        text.len() == 0 || !is_white(text[text.len() - 1]) ==> trim_end(text + seq!['\n']) == text,
{
    if is_request_line(line) {
        assert(line =~= line.drop_last() + seq!['\n']);
    }
    if exists|before: Seq<char>| line == #[trigger] (before + seq!['\n']) {
        let before = choose|before: Seq<char>| line == #[trigger] (before + seq!['\n']);
        assert(line.last() == '\n');
    }
    let whole = text + seq!['\n'];
    assert(whole.drop_last() =~= text);
    assert(whole.last() == '\n');
    assert(is_white('\n'));
    assert(trim_end(whole) == trim_end(text));
}

/// What a response says is what its fields hold.
pub proof fn law_responses_say_what_they_hold(response: Response)
    ensures
        response@.ok == response.ok,
        response@.status is Some <==> response.status is Some,
        response.status matches Some(text) ==> response@.status == Some(text@),
        response@.event is Some <==> response.event is Some,
        response.event matches Some(event) ==> response@.event == Some(event@),
        response@.queued == response.queued,
        response@.claimed == response.claimed,
        response@.completed == response.completed,
        response@.matrix_event_id is Some <==> response.matrix_event_id is Some,
        response.matrix_event_id matches Some(text) ==> response@.matrix_event_id == Some(text@),
        response@.room_id is Some <==> response.room_id is Some,
        response.room_id matches Some(text) ==> response@.room_id == Some(text@),
        response@.project_rooms is Some <==> response.project_rooms is Some,
        response.project_rooms matches Some(list) ==> response@.project_rooms->0.len() == list@.len()
            && forall|i: int|
            0 <= i < list@.len() ==> (#[trigger] response@.project_rooms->0[i]) == (
                list@[i].project_slug@,
                list@[i].room_id@,
            ),
        response@.error is Some <==> response.error is Some,
        response.error matches Some(text) ==> response@.error == Some(text@),
{
}

} // verus!
