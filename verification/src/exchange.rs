//! The course of a request.
//!
//! Answering a request alternates between decisions and work on the homeserver. Here are the
//! decisions: `begin` takes a request and `resume` takes what came of the last piece of work.
//! Each gives the next piece of work (`Step`) and what is awaited then (`Stage`). The last step
//! of every course is the response.

use vstd::prelude::*;

use crate::clock::{clock_fails, clock_gives, now_epoch, reading};
use crate::ids::{is_event_id, is_room_id, valid_event_id, valid_room_id};
use crate::model::{count_state, Tables};
use crate::outbound::{deterministic_transaction_id, transaction_id};
use crate::projects::{is_slug, normalize_project_slug, project_room_name, room_name, slug_of};
use crate::protocol::{
    claim_response, done_response, error_response, room_response, rooms_response, status_response,
    ActivityOutcome, Request, Response, ResponseView,
};
use crate::records::{EventKind, EventState};
use crate::speech::{overview, spoken_overview};
use crate::store::StateStore;
use crate::text::{blank_text, concat, is_blank, option_text, same_text, to_chars, trim, trim_text};

verus! {

broadcast use vstd::string::group_string_axioms;

/// Longest message, caption or transcript, in characters.
pub const MAX_MESSAGE_CHARS: usize = 16_000;

/// A notice to be edited: which one, its new text, and the phase that the text stands for.
#[derive(Debug)]
pub struct NoticeEdit {
    pub event_id: String,
    pub body: &'static str,
    pub phase: &'static str,
}

/// A piece of work on the homeserver, or the response.
#[derive(Debug)]
pub enum Step {
    /// Answer the client.
    Respond(Response),
    /// Look the room up, and find out whether it is joined and encrypted.
    OpenRoom { room_id: String },
    /// Show or hide the typing notice in the open room.
    SetTyping { typing: bool },
    /// Send a plain notice to the open room.
    SendNotice { body: &'static str, transaction_id: String },
    /// Edit a notice in the open room.
    EditNotice { event_id: String, body: &'static str, transaction_id: String },
    /// Send a formatted reply to the open room.
    SendReply { body: String, transaction_id: String },
    /// Have the text spoken and send the recording to the open room.
    SendAudio { speech: String, transaction_id: String },
    /// Create a private room with the allowed sender.
    CreateRoom { name: String },
    /// Leave the room, if it is joined.
    LeaveRoom { room_id: String },
}

/// What came of a piece of work.
#[derive(Debug)]
pub enum Outcome {
    /// It is done.
    Done,
    /// The room was found; whether it is joined and encrypted.
    Opened { joined: bool, encrypted: bool },
    /// A message was sent as this event.
    Sent { event_id: String },
    /// A room was created under this id.
    Created { room_id: String },
    /// It failed.
    Failed,
}

/// What a course awaits.
#[derive(Debug)]
pub enum Stage {
    StartRoom { event_id: String },
    StartTyping { event_id: String },
    StartNotice,
    ActivityRoom { typing: bool, edit: Option<NoticeEdit>, status: &'static str },
    ActivityTyping { edit: Option<NoticeEdit>, status: &'static str },
    ActivityEdit { status: &'static str },
    SendRoom { event_id: String, idempotency_key: String, body: String, voice: bool },
    SendReply { event_id: String, idempotency_key: String, body: String, voice: bool },
    SendAudio { event_id: String, idempotency_key: String, matrix_event_id: String },
    AddRoom { project_slug: String },
    RemoveRoom { room_id: String },
    Finished,
}

// ---------------------------------------------------------------------------
// Models
// ---------------------------------------------------------------------------

/// What a request asks for.
pub enum RequestView {
    Status,
    Claim { room_id: Option<Seq<char>> },
    ActivityStart { event_id: Seq<char> },
    ActivityHeartbeat {
        event_id: Seq<char>,
        status_event_id: Option<Seq<char>>,
        long_running: bool,
    },
    ActivityStop {
        event_id: Seq<char>,
        status_event_id: Option<Seq<char>>,
        outcome: ActivityOutcome,
    },
    Release { event_id: Seq<char> },
    Send { event_id: Seq<char>, idempotency_key: Seq<char>, body: Seq<char> },
    ProjectRoomAdd { project_slug: Seq<char>, display_name: Option<Seq<char>> },
    ProjectRoomRemove { project_slug: Seq<char> },
    ProjectRoomList,
}

/// What a notice edit says.
pub struct EditView {
    pub event_id: Seq<char>,
    pub body: Seq<char>,
    pub phase: Seq<char>,
}

/// What a step asks for.
pub enum StepView {
    Respond(ResponseView),
    OpenRoom { room_id: Seq<char> },
    SetTyping { typing: bool },
    SendNotice { body: Seq<char>, transaction_id: Seq<char> },
    EditNotice { event_id: Seq<char>, body: Seq<char>, transaction_id: Seq<char> },
    SendReply { body: Seq<char>, transaction_id: Seq<char> },
    SendAudio { speech: Seq<char>, transaction_id: Seq<char> },
    CreateRoom { name: Seq<char> },
    LeaveRoom { room_id: Seq<char> },
}

/// What an outcome says.
pub enum OutcomeView {
    Done,
    Opened { joined: bool, encrypted: bool },
    Sent { event_id: Seq<char> },
    Created { room_id: Seq<char> },
    Failed,
}

/// What a stage awaits.
pub enum StageView {
    StartRoom { event_id: Seq<char> },
    StartTyping { event_id: Seq<char> },
    StartNotice,
    ActivityRoom { typing: bool, edit: Option<EditView>, status: Seq<char> },
    ActivityTyping { edit: Option<EditView>, status: Seq<char> },
    ActivityEdit { status: Seq<char> },
    SendRoom { event_id: Seq<char>, idempotency_key: Seq<char>, body: Seq<char>, voice: bool },
    SendReply { event_id: Seq<char>, idempotency_key: Seq<char>, body: Seq<char>, voice: bool },
    SendAudio { event_id: Seq<char>, idempotency_key: Seq<char>, matrix_event_id: Seq<char> },
    AddRoom { project_slug: Seq<char> },
    RemoveRoom { room_id: Seq<char> },
    Finished,
}

impl View for Request {
    type V = RequestView;

    open spec fn view(&self) -> RequestView {
        match self {
            Request::Status => RequestView::Status,
            Request::Claim { room_id } => RequestView::Claim { room_id: option_text(*room_id) },
            Request::ActivityStart { event_id } => RequestView::ActivityStart {
                event_id: event_id@,
            },
            Request::ActivityHeartbeat { event_id, status_event_id, long_running } =>
                RequestView::ActivityHeartbeat {
                event_id: event_id@,
                status_event_id: option_text(*status_event_id),
                long_running: *long_running,
            },
            Request::ActivityStop { event_id, status_event_id, outcome } =>
                RequestView::ActivityStop {
                event_id: event_id@,
                status_event_id: option_text(*status_event_id),
                outcome: *outcome,
            },
            Request::Release { event_id } => RequestView::Release { event_id: event_id@ },
            Request::Send { event_id, idempotency_key, body } => RequestView::Send {
                event_id: event_id@,
                idempotency_key: idempotency_key@,
                body: body@,
            },
            Request::ProjectRoomAdd { project_slug, display_name } => RequestView::ProjectRoomAdd {
                project_slug: project_slug@,
                display_name: option_text(*display_name),
            },
            Request::ProjectRoomRemove { project_slug } => RequestView::ProjectRoomRemove {
                project_slug: project_slug@,
            },
            Request::ProjectRoomList => RequestView::ProjectRoomList,
        }
    }
}

impl View for NoticeEdit {
    type V = EditView;

    open spec fn view(&self) -> EditView {
        EditView { event_id: self.event_id@, body: self.body@, phase: self.phase@ }
    }
}

/// The edit that an optional edit holds.
pub open spec fn option_edit(value: Option<NoticeEdit>) -> Option<EditView> {
    match value {
        Some(edit) => Some(edit@),
        None => None,
    }
}

impl View for Step {
    type V = StepView;

    open spec fn view(&self) -> StepView {
        match self {
            Step::Respond(response) => StepView::Respond(response@),
            Step::OpenRoom { room_id } => StepView::OpenRoom { room_id: room_id@ },
            Step::SetTyping { typing } => StepView::SetTyping { typing: *typing },
            Step::SendNotice { body, transaction_id } => StepView::SendNotice {
                body: body@,
                transaction_id: transaction_id@,
            },
            Step::EditNotice { event_id, body, transaction_id } => StepView::EditNotice {
                event_id: event_id@,
                body: body@,
                transaction_id: transaction_id@,
            },
            Step::SendReply { body, transaction_id } => StepView::SendReply {
                body: body@,
                transaction_id: transaction_id@,
            },
            Step::SendAudio { speech, transaction_id } => StepView::SendAudio {
                speech: speech@,
                transaction_id: transaction_id@,
            },
            Step::CreateRoom { name } => StepView::CreateRoom { name: name@ },
            Step::LeaveRoom { room_id } => StepView::LeaveRoom { room_id: room_id@ },
        }
    }
}

impl View for Outcome {
    type V = OutcomeView;

    open spec fn view(&self) -> OutcomeView {
        match self {
            Outcome::Done => OutcomeView::Done,
            Outcome::Opened { joined, encrypted } => OutcomeView::Opened {
                joined: *joined,
                encrypted: *encrypted,
            },
            Outcome::Sent { event_id } => OutcomeView::Sent { event_id: event_id@ },
            Outcome::Created { room_id } => OutcomeView::Created { room_id: room_id@ },
            Outcome::Failed => OutcomeView::Failed,
        }
    }
}

impl View for Stage {
    type V = StageView;

    open spec fn view(&self) -> StageView {
        match self {
            Stage::StartRoom { event_id } => StageView::StartRoom { event_id: event_id@ },
            Stage::StartTyping { event_id } => StageView::StartTyping { event_id: event_id@ },
            Stage::StartNotice => StageView::StartNotice,
            Stage::ActivityRoom { typing, edit, status } => StageView::ActivityRoom {
                typing: *typing,
                edit: option_edit(*edit),
                status: status@,
            },
            Stage::ActivityTyping { edit, status } => StageView::ActivityTyping {
                edit: option_edit(*edit),
                status: status@,
            },
            Stage::ActivityEdit { status } => StageView::ActivityEdit { status: status@ },
            Stage::SendRoom { event_id, idempotency_key, body, voice } => StageView::SendRoom {
                event_id: event_id@,
                idempotency_key: idempotency_key@,
                body: body@,
                voice: *voice,
            },
            Stage::SendReply { event_id, idempotency_key, body, voice } => StageView::SendReply {
                event_id: event_id@,
                idempotency_key: idempotency_key@,
                body: body@,
                voice: *voice,
            },
            Stage::SendAudio { event_id, idempotency_key, matrix_event_id } =>
                StageView::SendAudio {
                event_id: event_id@,
                idempotency_key: idempotency_key@,
                matrix_event_id: matrix_event_id@,
            },
            Stage::AddRoom { project_slug } => StageView::AddRoom { project_slug: project_slug@ },
            Stage::RemoveRoom { room_id } => StageView::RemoveRoom { room_id: room_id@ },
            Stage::Finished => StageView::Finished,
        }
    }
}

// ---------------------------------------------------------------------------
// The course, as mathematics
// ---------------------------------------------------------------------------

/// Where a course stands after a decision: the tables, what is awaited, and the next step.
#[verifier::ext_equal]
pub struct Course {
    pub tables: Tables,
    pub stage: StageView,
    pub step: StepView,
}

/// The course ends with a response.
pub open spec fn answered(tables: Tables, response: ResponseView) -> Course {
    Course { tables, stage: StageView::Finished, step: StepView::Respond(response) }
}

/// The course ends in failure. The client learns no more than that.
pub open spec fn failed(tables: Tables) -> Course {
    answered(tables, error_response("operation_failed"@))
}

/// The course goes on in the room that an event came from, if the event is known and its room
/// id is well formed.
pub open spec fn in_source_room(tables: Tables, event_id: Seq<char>, stage: StageView) -> Course {
    match tables.position(event_id) {
        Some(i) if valid_room_id(tables.inbound[i].room_id) => Course {
            tables,
            stage,
            step: StepView::OpenRoom { room_id: tables.inbound[i].room_id },
        },
        _ => failed(tables),
    }
}

/// The edit that a heartbeat makes: none, unless the turn is long and has a notice.
pub open spec fn heartbeat_edit(status_event_id: Option<Seq<char>>, long_running: bool) -> Option<
    EditView,
> {
    match status_event_id {
        Some(event_id) if long_running => Some(
            EditView { event_id, body: "Still working…"@, phase: "working"@ },
        ),
        _ => None,
    }
}

/// The edit that the end of a turn makes, if the turn has a notice.
pub open spec fn stop_edit(status_event_id: Option<Seq<char>>, outcome: ActivityOutcome) -> Option<
    EditView,
> {
    match status_event_id {
        Some(event_id) => Some(
            match outcome {
                ActivityOutcome::Done => EditView { event_id, body: "Done."@, phase: "done"@ },
                ActivityOutcome::Stopped => EditView {
                    event_id,
                    body: "Stopped."@,
                    phase: "stopped"@,
                },
            },
        ),
        None => None,
    }
}

/// True for an answer that may be sent: key and text are not blank, and the text is within the
/// limit.
pub open spec fn sendable(idempotency_key: Seq<char>, body: Seq<char>) -> bool {
    !is_blank(idempotency_key) && !is_blank(body) && body.len() <= MAX_MESSAGE_CHARS
}

/// True when the event is a voice message.
pub open spec fn is_voice(tables: Tables, event_id: Seq<char>) -> bool {
    tables.position(event_id) matches Some(i) && tables.inbound[i].kind == EventKind::Voice
}

/// How the course of a request begins at time `now`.
pub open spec fn beginning(tables: Tables, request: RequestView, now: i64) -> Course {
    match request {
        RequestView::Status => answered(
            tables,
            status_response(
                count_state(tables.inbound, EventState::Queued) as u64,
                count_state(tables.inbound, EventState::Claimed) as u64,
                count_state(tables.inbound, EventState::Completed) as u64,
            ),
        ),
        RequestView::Claim { room_id } => {
            let (after, event) = tables.claim(room_id, now);
            answered(after, claim_response(event))
        },
        RequestView::ActivityStart { event_id } => in_source_room(
            tables,
            event_id,
            StageView::StartRoom { event_id },
        ),
        RequestView::ActivityHeartbeat { event_id, status_event_id, long_running } =>
            in_source_room(
            tables,
            event_id,
            StageView::ActivityRoom {
                typing: true,
                edit: heartbeat_edit(status_event_id, long_running),
                status: "activity_refreshed"@,
            },
        ),
        RequestView::ActivityStop { event_id, status_event_id, outcome } => in_source_room(
            tables,
            event_id,
            StageView::ActivityRoom {
                typing: false,
                edit: stop_edit(status_event_id, outcome),
                status: "activity_stopped"@,
            },
        ),
        RequestView::Release { event_id } => {
            let (after, changed) = tables.release(event_id);
            answered(
                after,
                done_response(
                    if changed {
                        "released"@
                    } else {
                        "unchanged"@
                    },
                    None,
                ),
            )
        },
        RequestView::Send { event_id, idempotency_key, body } => if !sendable(
            idempotency_key,
            body,
        ) {
            failed(tables)
        } else if tables.outbound.contains_key(idempotency_key) {
            answered(
                tables,
                done_response(
                    "duplicate"@,
                    Some(tables.outbound[idempotency_key].matrix_event_id),
                ),
            )
        } else {
            in_source_room(
                tables,
                event_id,
                StageView::SendRoom {
                    event_id,
                    idempotency_key,
                    body,
                    voice: is_voice(tables, event_id),
                },
            )
        },
        RequestView::ProjectRoomAdd { project_slug, display_name } => {
            let slug = slug_of(project_slug);
            if !is_slug(slug) {
                failed(tables)
            } else {
                match tables.project_room(slug) {
                    Some(room_id) => answered(
                        tables,
                        room_response("project_room_exists"@, room_id),
                    ),
                    None => Course {
                        tables,
                        stage: StageView::AddRoom { project_slug: slug },
                        step: StepView::CreateRoom { name: room_name(display_name, slug) },
                    },
                }
            }
        },
        RequestView::ProjectRoomRemove { project_slug } => {
            let slug = slug_of(project_slug);
            if !is_slug(slug) {
                failed(tables)
            } else {
                match tables.project_room(slug) {
                    Some(room_id) => if valid_room_id(room_id) {
                        Course {
                            tables: tables.unbind_room(room_id),
                            stage: StageView::RemoveRoom { room_id },
                            step: StepView::LeaveRoom { room_id },
                        }
                    } else {
                        failed(tables.unbind_room(room_id))
                    },
                    None => answered(tables, done_response("project_room_absent"@, None)),
                }
            }
        },
        RequestView::ProjectRoomList => answered(tables, rooms_response(tables.project_list())),
    }
}

/// The key under which the start of a turn is announced.
pub open spec fn start_key(event_id: Seq<char>) -> Seq<char> {
    "activity-start:"@ + event_id
}

/// The key under which a notice is edited.
pub open spec fn edit_key(edit: EditView) -> Seq<char> {
    "activity-edit:"@ + edit.event_id + ":"@ + edit.phase
}

/// The key under which the text of an answer is sent: for a voice message, one of its own.
pub open spec fn reply_key(idempotency_key: Seq<char>, voice: bool) -> Seq<char> {
    if voice {
        idempotency_key + ":text"@
    } else {
        idempotency_key
    }
}

/// The key under which the spoken overview of an answer is sent.
pub open spec fn audio_key(idempotency_key: Seq<char>) -> Seq<char> {
    idempotency_key + ":audio"@
}

/// The course edits a notice, if its id is well formed (`well_formed`).
pub open spec fn editing(tables: Tables, edit: EditView, status: Seq<char>, well_formed: bool) -> Course {
    if well_formed {
        Course {
            tables,
            stage: StageView::ActivityEdit { status },
            step: StepView::EditNotice {
                event_id: edit.event_id,
                body: edit.body,
                transaction_id: transaction_id(edit_key(edit)),
            },
        }
    } else {
        failed(tables)
    }
}

/// The course ends with the answer recorded at time `now`.
pub open spec fn completing(
    tables: Tables,
    event_id: Seq<char>,
    idempotency_key: Seq<char>,
    matrix_event_id: Seq<char>,
    now: i64,
) -> Course {
    let (after, result) = tables.complete(event_id, idempotency_key, matrix_event_id, now);
    if result is Ok {
        answered(after, done_response("sent"@, Some(matrix_event_id)))
    } else {
        failed(after)
    }
}

/// How a course goes on at time `now` with what came of its last step. It goes on in a room only
/// if the room is joined and encrypted. Work that failed ends it in failure, except that a spoken
/// overview may fail.
pub open spec fn continuation(
    tables: Tables,
    stage: StageView,
    outcome: OutcomeView,
    now: i64,
) -> Course {
    match (stage, outcome) {
        (
            StageView::StartRoom { event_id },
            OutcomeView::Opened { joined: true, encrypted: true },
        ) => Course {
            tables,
            stage: StageView::StartTyping { event_id },
            step: StepView::SetTyping { typing: true },
        },
        (StageView::StartTyping { event_id }, OutcomeView::Done) => Course {
            tables,
            stage: StageView::StartNotice,
            step: StepView::SendNotice {
                body: "Processing…"@,
                transaction_id: transaction_id(start_key(event_id)),
            },
        },
        (StageView::StartNotice, OutcomeView::Sent { event_id }) => answered(
            tables,
            done_response("activity_started"@, Some(event_id)),
        ),
        (
            StageView::ActivityRoom { typing, edit, status },
            OutcomeView::Opened { joined: true, encrypted: true },
        ) => Course {
            tables,
            stage: StageView::ActivityTyping { edit, status },
            step: StepView::SetTyping { typing },
        },
        (StageView::ActivityTyping { edit, status }, OutcomeView::Done) => match edit {
            Some(edit) => editing(tables, edit, status, valid_event_id(edit.event_id)),
            None => answered(tables, done_response(status, None)),
        },
        (StageView::ActivityEdit { status }, OutcomeView::Done) => answered(
            tables,
            done_response(status, None),
        ),
        (
            StageView::SendRoom { event_id, idempotency_key, body, voice },
            OutcomeView::Opened { joined: true, encrypted: true },
        ) =>
            Course {
            tables,
            stage: StageView::SendReply { event_id, idempotency_key, body, voice },
            step: StepView::SendReply {
                body,
                transaction_id: transaction_id(reply_key(idempotency_key, voice)),
            },
        },
        (
            StageView::SendReply { event_id, idempotency_key, body, voice },
            OutcomeView::Sent { event_id: matrix_event_id },
        ) => {
            let speech = overview(trim(body));
            if voice && speech.len() > 0 {
                Course {
                    tables,
                    stage: StageView::SendAudio { event_id, idempotency_key, matrix_event_id },
                    step: StepView::SendAudio {
                        speech,
                        transaction_id: transaction_id(audio_key(idempotency_key)),
                    },
                }
            } else {
                completing(tables, event_id, idempotency_key, matrix_event_id, now)
            }
        },
        (StageView::SendAudio { event_id, idempotency_key, matrix_event_id }, _) => completing(
            tables,
            event_id,
            idempotency_key,
            matrix_event_id,
            now,
        ),
        (StageView::AddRoom { project_slug }, OutcomeView::Created { room_id }) => {
            let (after, result) = tables.bind_room(room_id, Some(project_slug), now);
            if result is Ok {
                answered(after, room_response("project_room_created"@, room_id))
            } else {
                failed(after)
            }
        },
        (StageView::RemoveRoom { room_id }, OutcomeView::Done) => answered(
            tables,
            room_response("project_room_removed"@, room_id),
        ),
        _ => failed(tables),
    }
}

/// True for the requests whose course reads the clock at once.
pub open spec fn begin_needs_clock(request: RequestView) -> bool {
    request is Claim
}

/// True where a course reads the clock to go on.
pub open spec fn resume_needs_clock(stage: StageView, outcome: OutcomeView) -> bool {
    match (stage, outcome) {
        (StageView::SendReply { body, voice, .. }, OutcomeView::Sent { .. }) => !voice || overview(
            trim(body),
        ).len() == 0,
        (StageView::SendAudio { .. }, _) => true,
        (StageView::AddRoom { .. }, OutcomeView::Created { .. }) => true,
        _ => false,
    }
}

// ---------------------------------------------------------------------------
// The course, as code
// ---------------------------------------------------------------------------

/// The course over the tables of a store, with what was returned.
pub open spec fn course_of(store: StateStore, returned: (Stage, Step)) -> Course {
    Course { tables: store@, stage: returned.0@, step: returned.1@ }
}

fn respond(response: Response) -> (r: (Stage, Step))
    ensures
        r.0@ == StageView::Finished,
        r.1@ == StepView::Respond(response@),
{
    (Stage::Finished, Step::Respond(response))
}

fn fail() -> (r: (Stage, Step))
    ensures
        r.0@ == StageView::Finished,
        r.1@ == StepView::Respond(error_response("operation_failed"@)),
{
    respond(Response::error("operation_failed"))
}

fn open_source_room(store: &StateStore, event_id: &str, stage: Stage) -> (r: (Stage, Step))
    requires
        store.wf(),
    ensures
        course_of(*store, r) == in_source_room(store@, event_id@, stage@),
{
    match store.source_context(event_id) {
        Some(source) => {
            if is_room_id(source.room_id.as_str()) {
                (stage, Step::OpenRoom { room_id: source.room_id })
            } else {
                fail()
            }
        },
        None => fail(),
    }
}

fn begin_send(store: &StateStore, event_id: String, idempotency_key: String, body: String) -> (r: (
    Stage,
    Step,
))
    requires
        store.wf(),
    ensures
        forall|now: i64| #[trigger]
            beginning(
                store@,
                RequestView::Send {
                    event_id: event_id@,
                    idempotency_key: idempotency_key@,
                    body: body@,
                },
                now,
            ) == course_of(*store, r),
{
    if blank_text(idempotency_key.as_str()) || blank_text(body.as_str()) || to_chars(
        body.as_str(),
    ).len() > MAX_MESSAGE_CHARS {
        return fail();
    }
    if let Some(matrix_event_id) = store.outbound_event(idempotency_key.as_str()) {
        return respond(Response::done("duplicate", Some(matrix_event_id)));
    }
    match store.source_context(event_id.as_str()) {
        Some(source) => {
            let voice = same_text(source.kind.as_str(), "voice");
            proof {
                reveal_strlit("text");
                reveal_strlit("voice");
                reveal_strlit("image");
                assert("text"@.len() != "voice"@.len());
                assert("image"@[0] != "voice"@[0]);
            }
            if is_room_id(source.room_id.as_str()) {
                (
                    Stage::SendRoom { event_id, idempotency_key, body, voice },
                    Step::OpenRoom { room_id: source.room_id },
                )
            } else {
                fail()
            }
        },
        None => fail(),
    }
}

fn begin_add(store: &StateStore, project_slug: String, display_name: Option<String>) -> (r: (
    Stage,
    Step,
))
    requires
        store.wf(),
    ensures
        forall|now: i64| #[trigger]
            beginning(
                store@,
                RequestView::ProjectRoomAdd {
                    project_slug: project_slug@,
                    display_name: option_text(display_name),
                },
                now,
            ) == course_of(*store, r),
{
    match normalize_project_slug(project_slug.as_str()) {
        Ok(slug) => {
            match store.room_for_project(slug.as_str()) {
                Some(room_id) => respond(Response::room("project_room_exists", room_id)),
                None => {
                    let name = project_room_name(&display_name, slug.as_str());
                    (Stage::AddRoom { project_slug: slug }, Step::CreateRoom { name })
                },
            }
        },
        Err(_) => fail(),
    }
}

fn begin_remove(store: &mut StateStore, project_slug: String) -> (r: (Stage, Step))
    requires
        old(store).wf(),
    ensures
        final(store).wf(),
        final(store).persisted() == old(store).persisted(),
        forall|now: i64| #[trigger]
            beginning(
                old(store)@,
                RequestView::ProjectRoomRemove { project_slug: project_slug@ },
                now,
            ) == course_of(*final(store), r),
{
    match normalize_project_slug(project_slug.as_str()) {
        Ok(slug) => {
            match store.room_for_project(slug.as_str()) {
                Some(room_id) => {
                    let _ = store.remove_room_binding(room_id.as_str());
                    if is_room_id(room_id.as_str()) {
                        let left = room_id.as_str().to_owned();
                        (Stage::RemoveRoom { room_id }, Step::LeaveRoom { room_id: left })
                    } else {
                        fail()
                    }
                },
                None => respond(Response::done("project_room_absent", None)),
            }
        },
        Err(_) => fail(),
    }
}

/// Begins the course of a request at time `now`.
pub fn begin_at(store: &mut StateStore, request: Request, now: i64) -> (r: (Stage, Step))
    requires
        old(store).wf(),
    ensures
        final(store).wf(),
        final(store).persisted() == old(store).persisted(),
        course_of(*final(store), r) == beginning(old(store)@, request@, now),
{
    match request {
        Request::Status => {
            let (queued, claimed, completed) = store.counts();
            respond(Response::status(queued, claimed, completed))
        },
        Request::Claim { room_id } => {
            let scope: Option<&str> = match &room_id {
                Some(id) => Some(id.as_str()),
                None => None,
            };
            let event = store.claim_at(scope, now);
            respond(Response::claim(event))
        },
        Request::ActivityStart { event_id } => {
            let id = event_id.as_str().to_owned();
            open_source_room(store, id.as_str(), Stage::StartRoom { event_id })
        },
        Request::ActivityHeartbeat { event_id, status_event_id, long_running } => {
            let edit = match status_event_id {
                Some(notice) => if long_running {
                    Some(
                        NoticeEdit { event_id: notice, body: "Still working…", phase: "working" },
                    )
                } else {
                    None
                },
                None => None,
            };
            open_source_room(
                store,
                event_id.as_str(),
                Stage::ActivityRoom { typing: true, edit, status: "activity_refreshed" },
            )
        },
        Request::ActivityStop { event_id, status_event_id, outcome } => {
            let edit = match status_event_id {
                Some(notice) => Some(
                    match outcome {
                        ActivityOutcome::Done => NoticeEdit {
                            event_id: notice,
                            body: "Done.",
                            phase: "done",
                        },
                        ActivityOutcome::Stopped => NoticeEdit {
                            event_id: notice,
                            body: "Stopped.",
                            phase: "stopped",
                        },
                    },
                ),
                None => None,
            };
            open_source_room(
                store,
                event_id.as_str(),
                Stage::ActivityRoom { typing: false, edit, status: "activity_stopped" },
            )
        },
        Request::Release { event_id } => {
            let status = if store.release(event_id.as_str()) {
                "released"
            } else {
                "unchanged"
            };
            respond(Response::done(status, None))
        },
        Request::Send { event_id, idempotency_key, body } => begin_send(
            store,
            event_id,
            idempotency_key,
            body,
        ),
        Request::ProjectRoomAdd { project_slug, display_name } => begin_add(
            store,
            project_slug,
            display_name,
        ),
        Request::ProjectRoomRemove { project_slug } => begin_remove(store, project_slug),
        Request::ProjectRoomList => respond(Response::project_rooms(store.list_project_rooms())),
    }
}

/// Begins the course of a request now. When the clock cannot be read, a claim fails and changes
/// nothing; no other request reads it here.
pub fn begin(store: &mut StateStore, request: Request) -> (r: (Stage, Step))
    requires
        old(store).wf(),
    ensures
        final(store).wf(),
        final(store).persisted() == old(store).persisted(),
        ({
            ||| exists|now: i64|
                clock_gives(now) && course_of(*final(store), r) == #[trigger] beginning(
                    old(store)@,
                    request@,
                    now,
                )
            ||| begin_needs_clock(request@) && course_of(*final(store), r) == failed(old(store)@)
                && clock_fails()
            ||| !begin_needs_clock(request@) && forall|now: i64|
                course_of(*final(store), r) == #[trigger] beginning(old(store)@, request@, now)
        }),
{
    if let Request::Claim { room_id } = request {
        match reading(now_epoch) {
            Ok(now) => begin_at(store, Request::Claim { room_id }, now),
            Err(_) => fail(),
        }
    } else {
        begin_at(store, request, 0)
    }
}

/// The step that edits a notice, given whether its id is well formed.
pub fn edit_step(edit: NoticeEdit, status: &'static str, well_formed: bool) -> (r: (Stage, Step))
    ensures
        forall|tables: Tables| #[trigger]
            editing(tables, edit@, status@, well_formed) == (Course {
                tables,
                stage: r.0@,
                step: r.1@,
            }),
{
    if well_formed {
        let prefix = concat("activity-edit:", edit.event_id.as_str());
        let middle = concat(prefix.as_str(), ":");
        let key = concat(middle.as_str(), edit.phase);
        let transaction_id = deterministic_transaction_id(key.as_str());
        (
            Stage::ActivityEdit { status },
            Step::EditNotice { event_id: edit.event_id, body: edit.body, transaction_id },
        )
    } else {
        fail()
    }
}

fn finish_send(
    store: &mut StateStore,
    event_id: String,
    idempotency_key: String,
    matrix_event_id: String,
    now: i64,
) -> (r: (Stage, Step))
    requires
        old(store).wf(),
    ensures
        final(store).wf(),
        final(store).persisted() == old(store).persisted(),
        course_of(*final(store), r) == completing(
            old(store)@,
            event_id@,
            idempotency_key@,
            matrix_event_id@,
            now,
        ),
{
    match store.complete_at(
        event_id.as_str(),
        idempotency_key.as_str(),
        matrix_event_id.as_str(),
        now,
    ) {
        Ok(()) => respond(Response::done("sent", Some(matrix_event_id))),
        Err(_) => fail(),
    }
}

fn after_reply(
    store: &mut StateStore,
    event_id: String,
    idempotency_key: String,
    body: String,
    voice: bool,
    matrix_event_id: String,
    now: i64,
) -> (r: (Stage, Step))
    requires
        old(store).wf(),
    ensures
        final(store).wf(),
        final(store).persisted() == old(store).persisted(),
        course_of(*final(store), r) == continuation(
            old(store)@,
            StageView::SendReply {
                event_id: event_id@,
                idempotency_key: idempotency_key@,
                body: body@,
                voice,
            },
            OutcomeView::Sent { event_id: matrix_event_id@ },
            now,
        ),
{
    if voice {
        let answer = trim_text(body.as_str());
        let speech = spoken_overview(answer.as_str());
        if !speech.as_str().is_empty() {
            let key = concat(idempotency_key.as_str(), ":audio");
            let transaction_id = deterministic_transaction_id(key.as_str());
            return (
                Stage::SendAudio { event_id, idempotency_key, matrix_event_id },
                Step::SendAudio { speech, transaction_id },
            );
        }
    }
    finish_send(store, event_id, idempotency_key, matrix_event_id, now)
}

/// Goes on with a course at time `now`, given what came of its last step.
pub fn resume_at(store: &mut StateStore, stage: Stage, outcome: Outcome, now: i64) -> (r: (
    Stage,
    Step,
))
    requires
        old(store).wf(),
    ensures
        final(store).wf(),
        final(store).persisted() == old(store).persisted(),
        course_of(*final(store), r) == continuation(old(store)@, stage@, outcome@, now),
{
    match (stage, outcome) {
        (
            Stage::StartRoom { event_id },
            Outcome::Opened { joined: true, encrypted: true },
        ) => (
            Stage::StartTyping { event_id },
            Step::SetTyping { typing: true },
        ),
        (Stage::StartTyping { event_id }, Outcome::Done) => {
            let key = concat("activity-start:", event_id.as_str());
            let transaction_id = deterministic_transaction_id(key.as_str());
            (Stage::StartNotice, Step::SendNotice { body: "Processing…", transaction_id })
        },
        (Stage::StartNotice, Outcome::Sent { event_id }) => respond(
            Response::done("activity_started", Some(event_id)),
        ),
        (
            Stage::ActivityRoom { typing, edit, status },
            Outcome::Opened { joined: true, encrypted: true },
        ) => (
            Stage::ActivityTyping { edit, status },
            Step::SetTyping { typing },
        ),
        (Stage::ActivityTyping { edit, status }, Outcome::Done) => match edit {
            Some(edit) => {
                let well_formed = is_event_id(edit.event_id.as_str());
                edit_step(edit, status, well_formed)
            },
            None => respond(Response::done(status, None)),
        },
        (Stage::ActivityEdit { status }, Outcome::Done) => respond(Response::done(status, None)),
        (
            Stage::SendRoom { event_id, idempotency_key, body, voice },
            Outcome::Opened { joined: true, encrypted: true },
        ) => {
            let key = if voice {
                concat(idempotency_key.as_str(), ":text")
            } else {
                idempotency_key.as_str().to_owned()
            };
            let transaction_id = deterministic_transaction_id(key.as_str());
            let reply = body.as_str().to_owned();
            (
                Stage::SendReply { event_id, idempotency_key, body, voice },
                Step::SendReply { body: reply, transaction_id },
            )
        },
        (
            Stage::SendReply { event_id, idempotency_key, body, voice },
            Outcome::Sent { event_id: matrix_event_id },
        ) => after_reply(store, event_id, idempotency_key, body, voice, matrix_event_id, now),
        (Stage::SendAudio { event_id, idempotency_key, matrix_event_id }, _) => finish_send(
            store,
            event_id,
            idempotency_key,
            matrix_event_id,
            now,
        ),
        (Stage::AddRoom { project_slug }, Outcome::Created { room_id }) => {
            match store.upsert_room_binding_at(room_id.as_str(), Some(project_slug.as_str()), now) {
                Ok(()) => respond(Response::room("project_room_created", room_id)),
                Err(_) => fail(),
            }
        },
        (Stage::RemoveRoom { room_id }, Outcome::Done) => respond(
            Response::room("project_room_removed", room_id),
        ),
        _ => fail(),
    }
}

/// Goes on with a course now, given what came of its last step. Where the clock is needed and
/// cannot be read, the course ends in failure and changes nothing.
pub fn resume(store: &mut StateStore, stage: Stage, outcome: Outcome) -> (r: (Stage, Step))
    requires
        old(store).wf(),
    ensures
        final(store).wf(),
        final(store).persisted() == old(store).persisted(),
        ({
            ||| exists|now: i64|
                clock_gives(now) && course_of(*final(store), r) == #[trigger] continuation(
                    old(store)@,
                    stage@,
                    outcome@,
                    now,
                )
            ||| resume_needs_clock(stage@, outcome@) && course_of(*final(store), r) == failed(
                old(store)@,
            ) && clock_fails()
            ||| !resume_needs_clock(stage@, outcome@) && forall|now: i64|
                course_of(*final(store), r) == #[trigger] continuation(
                    old(store)@,
                    stage@,
                    outcome@,
                    now,
                )
        }),
{
    if waits_for_clock(&stage, &outcome) {
        match reading(now_epoch) {
            Ok(now) => resume_at(store, stage, outcome, now),
            Err(_) => fail(),
        }
    } else {
        resume_at(store, stage, outcome, 0)
    }
}

fn waits_for_clock(stage: &Stage, outcome: &Outcome) -> (r: bool)
    ensures
        r == resume_needs_clock(stage@, outcome@),
{
    match (stage, outcome) {
        (Stage::SendReply { body, voice, .. }, Outcome::Sent { .. }) => {
            if !*voice {
                return true;
            }
            let answer = trim_text(body.as_str());
            let speech = spoken_overview(answer.as_str());
            speech.as_str().is_empty()
        },
        (Stage::SendAudio { .. }, _) => true,
        (Stage::AddRoom { .. }, Outcome::Created { .. }) => true,
        _ => false,
    }
}

} // verus!
