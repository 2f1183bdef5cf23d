//! What each request comes to, from its first step to its answer.

use vstd::prelude::*;

use crate::exchange::{
    begin_needs_clock, beginning, continuation, course_of, editing, resume_needs_clock, Course,
    EditView, OutcomeView, RequestView, Stage, StageView, Step, StepView,
};
use crate::ids::{valid_event_id, valid_room_id};
use crate::model::{find_event, lemma_find_event, InboundRecord, Tables};
use crate::operation_laws::{
    hands_out, in_state, law_claiming_takes_the_first, law_counts_are_numbers_of_rows,
    law_releasing_puts_back, law_work_in_hand_is_not_stolen, left_alone, may_be_claimed,
};
use crate::outbound::transaction_id;
use crate::projects::{is_slug, room_name, slug_of};
use crate::protocol::{ActivityOutcome, ResponseView};
use crate::records::{EventKind, EventState, StoreError};
use crate::speech::overview;
use crate::store::StateStore;
use crate::text::trim;
use crate::text_laws::{has_ink, law_blank_means_all_white};

verus! {

// ---------------------------------------------------------------------------
// Answers
// ---------------------------------------------------------------------------

/// The answer that an operation failed. It says nothing else.
pub open spec fn failure() -> ResponseView {
    ResponseView {
        ok: false,
        status: None,
        event: None,
        queued: None,
        claimed: None,
        completed: None,
        matrix_event_id: None,
        room_id: None,
        project_rooms: None,
        error: Some("operation_failed"@),
    }
}

/// The answer of success with a status, an event of Matrix and a room, and nothing else.
pub open spec fn success(
    status: Seq<char>,
    matrix_event_id: Option<Seq<char>>,
    room_id: Option<Seq<char>>,
) -> ResponseView {
    ResponseView {
        ok: true,
        status: Some(status),
        event: None,
        queued: None,
        claimed: None,
        completed: None,
        matrix_event_id,
        room_id,
        project_rooms: None,
        error: None,
    }
}

/// True when the course is over with this answer and these tables.
pub open spec fn ends_with_answer(course: Course, tables: Tables, response: ResponseView) -> bool {
    course.tables == tables && course.step == StepView::Respond(response) && course.stage
        == StageView::Finished
}

/// True when the course takes this step and leaves the tables alone.
pub open spec fn takes_step(course: Course, tables: Tables, step: StepView) -> bool {
    course.tables == tables && course.step == step && course.stage != StageView::Finished
}

/// True for a row whose room can be opened: its id is a room id of Matrix.
pub open spec fn has_room(row: InboundRecord) -> bool {
    row.room_id.len() > 0 && row.room_id[0] == '!' && forall|i: int|
        0 <= i < row.room_id.len() ==> #[trigger] row.room_id[i] != '\0'
}

/// What came of opening a room that is joined and encrypted.
pub open spec fn opened() -> OutcomeView {
    OutcomeView::Opened { joined: true, encrypted: true }
}

/// Finding the row of an event.
proof fn lemma_row(tables: Tables, i: int)
    requires
        tables.valid(),
        0 <= i < tables.inbound.len(),
    ensures
        tables.position(tables.inbound[i].event_id) == Some(i),
        has_room(tables.inbound[i]) == valid_room_id(tables.inbound[i].room_id),
{
    let id = tables.inbound[i].event_id;
    lemma_find_event(tables.inbound, id, 0);
    match find_event(tables.inbound, id, 0) {
        Some(k) => {
            if k < i {
                assert(tables.inbound[k].event_id != tables.inbound[i].event_id);
            } else if k > i {
                assert(tables.inbound[i].event_id != tables.inbound[k].event_id);
            }
        },
        None => {
            assert(tables.inbound[i].event_id != id);
        },
    }
    let room = tables.inbound[i].room_id;
    if room.contains('\0') {
        let k = choose|k: int| 0 <= k < room.len() && room[k] == '\0';
        assert(room[k] == '\0');
    }
    assert forall|k: int| 0 <= k < room.len() && !room.contains('\0') implies #[trigger] room[k]
        != '\0' by {
        assert(room.contains(room[k]));
    }
}

// ---------------------------------------------------------------------------
// Sending
// ---------------------------------------------------------------------------

/// True for an answer that may be sent: key and text say something, and the text has at most
/// sixteen thousand characters.
pub open spec fn may_be_sent(idempotency_key: Seq<char>, body: Seq<char>) -> bool {
    has_ink(idempotency_key) && has_ink(body) && body.len() <= 16000
}

/// An answer is sent whole, to the room that its event came from. Its text goes out under the id
/// of its key, or of the key for the text if the event was spoken. The queue changes between the
/// steps as it will.
pub proof fn law_answers_are_sent_whole(
    tables: Tables,
    i: int,
    idempotency_key: Seq<char>,
    body: Seq<char>,
    now: i64,
    meanwhile: Tables,
    later: i64,
)
    requires
        tables.valid(),
        0 <= i < tables.inbound.len(),
        has_room(tables.inbound[i]),
        may_be_sent(idempotency_key, body),
        !tables.outbound.contains_key(idempotency_key),
    ensures
        ({
            let row = tables.inbound[i];
            let request = RequestView::Send { event_id: row.event_id, idempotency_key, body };
            let first = beginning(tables, request, now);
            let second = continuation(meanwhile, first.stage, opened(), later);
            &&& takes_step(first, tables, StepView::OpenRoom { room_id: row.room_id })
            &&& first.stage == StageView::SendRoom {
                event_id: row.event_id,
                idempotency_key,
                body,
                voice: row.kind == EventKind::Voice,
            }
            &&& takes_step(
                second,
                meanwhile,
                StepView::SendReply {
                    body,
                    transaction_id: transaction_id(
                        if row.kind == EventKind::Voice {
                            idempotency_key + ":text"@
                        } else {
                            idempotency_key
                        },
                    ),
                },
            )
        }),
{
    lemma_row(tables, i);
    law_blank_means_all_white(idempotency_key);
    law_blank_means_all_white(body);
}

/// The end of a course whose answer was sent as `matrix_event_id`: the answer is recorded at that
/// time, and the client is told its id; or the operation failed, because the event was not claimed.
pub open spec fn ends_recorded(
    course: Course,
    tables: Tables,
    event_id: Seq<char>,
    idempotency_key: Seq<char>,
    matrix_event_id: Seq<char>,
    now: i64,
) -> bool {
    let (after, result) = tables.complete(event_id, idempotency_key, matrix_event_id, now);
    ends_with_answer(
        course,
        after,
        if result == Ok::<(), StoreError>(()) {
            success("sent"@, Some(matrix_event_id), None)
        } else {
            failure()
        },
    )
}

/// Once the text of an answer is sent, it is recorded under its key. For a spoken event the
/// overview of the same answer is spoken first, under a key of its own; whatever comes of that, the
/// answer is recorded as the text that was sent.
pub proof fn law_sent_answers_are_recorded(
    tables: Tables,
    i: int,
    idempotency_key: Seq<char>,
    body: Seq<char>,
    now: i64,
    meanwhile: Tables,
    matrix_event_id: Seq<char>,
    outcome: OutcomeView,
    last: Tables,
    later: i64,
)
    requires
        tables.valid(),
        0 <= i < tables.inbound.len(),
        has_room(tables.inbound[i]),
        may_be_sent(idempotency_key, body),
        !tables.outbound.contains_key(idempotency_key),
    ensures
        ({
            let row = tables.inbound[i];
            let request = RequestView::Send { event_id: row.event_id, idempotency_key, body };
            let first = beginning(tables, request, now);
            let second = continuation(tables, first.stage, opened(), now);
            let sent = OutcomeView::Sent { event_id: matrix_event_id };
            let third = continuation(meanwhile, second.stage, sent, now);
            let speech = overview(trim(body));
            if row.kind == EventKind::Voice && speech.len() > 0 {
                &&& takes_step(
                    third,
                    meanwhile,
                    StepView::SendAudio {
                        speech,
                        transaction_id: transaction_id(idempotency_key + ":audio"@),
                    },
                )
                &&& ends_recorded(
                    continuation(last, third.stage, outcome, later),
                    last,
                    row.event_id,
                    idempotency_key,
                    matrix_event_id,
                    later,
                )
            } else {
                ends_recorded(
                    third,
                    meanwhile,
                    row.event_id,
                    idempotency_key,
                    matrix_event_id,
                    now,
                )
            }
        }),
{
    lemma_row(tables, i);
    law_blank_means_all_white(idempotency_key);
    law_blank_means_all_white(body);
}

/// An answer that may not be sent fails. One under a key that is known is answered with what was
/// sent under it. One to an event that is not known, or whose room cannot be opened, fails.
/// Nothing changes in any of these cases.
pub proof fn law_unfit_and_repeated_answers_are_not_sent(
    tables: Tables,
    event_id: Seq<char>,
    idempotency_key: Seq<char>,
    body: Seq<char>,
    now: i64,
)
    requires
        tables.valid(),
    ensures
        ({
            let course = beginning(
                tables,
                RequestView::Send { event_id, idempotency_key, body },
                now,
            );
            &&& !may_be_sent(idempotency_key, body) ==> ends_with_answer(course, tables, failure())
            &&& may_be_sent(idempotency_key, body) && tables.outbound.contains_key(idempotency_key)
                ==> ends_with_answer(
                course,
                tables,
                success(
                    "duplicate"@,
                    Some(tables.outbound[idempotency_key].matrix_event_id),
                    None,
                ),
            )
            &&& may_be_sent(idempotency_key, body) && !tables.outbound.contains_key(idempotency_key)
                && (forall|i: int|
                0 <= i < tables.inbound.len() && (#[trigger] tables.inbound[i]).event_id == event_id
                    ==> !has_room(tables.inbound[i])) ==> ends_with_answer(
                course,
                tables,
                failure(),
            )
        }),
{
    law_blank_means_all_white(idempotency_key);
    law_blank_means_all_white(body);
    lemma_find_event(tables.inbound, event_id, 0);
    if let Some(i) = find_event(tables.inbound, event_id, 0) {
        lemma_row(tables, i);
        assert(tables.inbound[i].event_id == event_id);
    }
}

// ---------------------------------------------------------------------------
// Activity
// ---------------------------------------------------------------------------

/// The start of a turn is shown in the room of its event: as typing, then as a notice, whose id is
/// the answer.
pub proof fn law_turns_are_announced(
    tables: Tables,
    i: int,
    now: i64,
    meanwhile: Tables,
    notice: Seq<char>,
    later: i64,
)
    requires
        tables.valid(),
        0 <= i < tables.inbound.len(),
        has_room(tables.inbound[i]),
    ensures
        ({
            let row = tables.inbound[i];
            let request = RequestView::ActivityStart { event_id: row.event_id };
            let first = beginning(tables, request, now);
            let second = continuation(meanwhile, first.stage, opened(), later);
            let third = continuation(meanwhile, second.stage, OutcomeView::Done, later);
            let sent = OutcomeView::Sent { event_id: notice };
            let fourth = continuation(meanwhile, third.stage, sent, later);
            &&& takes_step(first, tables, StepView::OpenRoom { room_id: row.room_id })
            &&& takes_step(second, meanwhile, StepView::SetTyping { typing: true })
            &&& takes_step(
                third,
                meanwhile,
                StepView::SendNotice {
                    body: "Processing…"@,
                    transaction_id: transaction_id("activity-start:"@ + row.event_id),
                },
            )
            &&& ends_with_answer(fourth, meanwhile, success("activity_started"@, Some(notice), None))
        }),
{
    lemma_row(tables, i);
}

/// The step that edits a notice to a fixed text.
pub open spec fn edit_to(notice: Seq<char>, body: Seq<char>, phase: Seq<char>) -> StepView {
    StepView::EditNotice {
        event_id: notice,
        body,
        transaction_id: transaction_id("activity-edit:"@ + notice + ":"@ + phase),
    }
}

/// True when the course edits the notice and then answers with the status; or fails, where the
/// notice has no event id of Matrix.
pub open spec fn edits_and_answers(
    course: Course,
    tables: Tables,
    edit: StepView,
    notice: Seq<char>,
    status: Seq<char>,
    later: i64,
) -> bool {
    if valid_event_id(notice) {
        takes_step(course, tables, edit) && ends_with_answer(
            continuation(tables, course.stage, OutcomeView::Done, later),
            tables,
            success(status, None, None),
        )
    } else {
        ends_with_answer(course, tables, failure())
    }
}

/// A heartbeat keeps the typing notice up. The notice of a turn is edited only if the turn is long
/// and has one.
pub proof fn law_heartbeats_keep_typing(
    tables: Tables,
    i: int,
    notice: Option<Seq<char>>,
    long_running: bool,
    now: i64,
    meanwhile: Tables,
    later: i64,
)
    requires
        tables.valid(),
        0 <= i < tables.inbound.len(),
        has_room(tables.inbound[i]),
    ensures
        ({
            let row = tables.inbound[i];
            let request = RequestView::ActivityHeartbeat {
                event_id: row.event_id,
                status_event_id: notice,
                long_running,
            };
            let first = beginning(tables, request, now);
            let second = continuation(meanwhile, first.stage, opened(), later);
            let third = continuation(meanwhile, second.stage, OutcomeView::Done, later);
            &&& takes_step(first, tables, StepView::OpenRoom { room_id: row.room_id })
            &&& takes_step(second, meanwhile, StepView::SetTyping { typing: true })
            &&& if long_running && notice is Some {
                edits_and_answers(
                    third,
                    meanwhile,
                    edit_to(notice->0, "Still working…"@, "working"@),
                    notice->0,
                    "activity_refreshed"@,
                    later,
                )
            } else {
                ends_with_answer(third, meanwhile, success("activity_refreshed"@, None, None))
            }
        }),
{
    lemma_row(tables, i);
}

/// The end of a turn takes the typing notice down, and edits the notice of the turn, if it has
/// one, to how the turn ended.
pub proof fn law_ends_of_turns_are_shown(
    tables: Tables,
    i: int,
    notice: Option<Seq<char>>,
    outcome: ActivityOutcome,
    now: i64,
    meanwhile: Tables,
    later: i64,
)
    requires
        tables.valid(),
        0 <= i < tables.inbound.len(),
        has_room(tables.inbound[i]),
    ensures
        ({
            let row = tables.inbound[i];
            let request = RequestView::ActivityStop {
                event_id: row.event_id,
                status_event_id: notice,
                outcome,
            };
            let first = beginning(tables, request, now);
            let second = continuation(meanwhile, first.stage, opened(), later);
            let third = continuation(meanwhile, second.stage, OutcomeView::Done, later);
            &&& takes_step(first, tables, StepView::OpenRoom { room_id: row.room_id })
            &&& takes_step(second, meanwhile, StepView::SetTyping { typing: false })
            &&& if notice is Some {
                edits_and_answers(
                    third,
                    meanwhile,
                    if outcome == ActivityOutcome::Done {
                        edit_to(notice->0, "Done."@, "done"@)
                    } else {
                        edit_to(notice->0, "Stopped."@, "stopped"@)
                    },
                    notice->0,
                    "activity_stopped"@,
                    later,
                )
            } else {
                ends_with_answer(third, meanwhile, success("activity_stopped"@, None, None))
            }
        }),
{
    lemma_row(tables, i);
}

/// Activity on an event that is not known, or whose room cannot be opened, fails.
pub proof fn law_activity_needs_a_known_event(
    tables: Tables,
    event_id: Seq<char>,
    notice: Option<Seq<char>>,
    long_running: bool,
    outcome: ActivityOutcome,
    now: i64,
)
    requires
        tables.valid(),
        forall|i: int|
            0 <= i < tables.inbound.len() && (#[trigger] tables.inbound[i]).event_id == event_id
                ==> !has_room(tables.inbound[i]),
    ensures
        ends_with_answer(
            beginning(tables, RequestView::ActivityStart { event_id }, now),
            tables,
            failure(),
        ),
        ends_with_answer(
            beginning(
                tables,
                RequestView::ActivityHeartbeat { event_id, status_event_id: notice, long_running },
                now,
            ),
            tables,
            failure(),
        ),
        ends_with_answer(
            beginning(
                tables,
                RequestView::ActivityStop { event_id, status_event_id: notice, outcome },
                now,
            ),
            tables,
            failure(),
        ),
{
    lemma_find_event(tables.inbound, event_id, 0);
    if let Some(i) = find_event(tables.inbound, event_id, 0) {
        lemma_row(tables, i);
        assert(tables.inbound[i].event_id == event_id);
    }
}

// ---------------------------------------------------------------------------
// The queue
// ---------------------------------------------------------------------------

/// The answer to a request for the status: how many events wait, are claimed, and are completed.
pub proof fn law_status_counts_the_events(tables: Tables, now: i64)
    requires
        tables.inbound.len() <= u64::MAX,
    ensures
        ({
            let course = beginning(tables, RequestView::Status, now);
            let waiting = tables.inbound.filter(in_state(EventState::Queued)).len();
            let claimed = tables.inbound.filter(in_state(EventState::Claimed)).len();
            let completed = tables.inbound.filter(in_state(EventState::Completed)).len();
            ends_with_answer(
                course,
                tables,
                ResponseView {
                    ok: true,
                    status: Some("ready"@),
                    event: None,
                    queued: Some(waiting as u64),
                    claimed: Some(claimed as u64),
                    completed: Some(completed as u64),
                    matrix_event_id: None,
                    room_id: None,
                    project_rooms: None,
                    error: None,
                },
            )
        }),
{
    law_counts_are_numbers_of_rows(tables.inbound, EventState::Queued);
    law_counts_are_numbers_of_rows(tables.inbound, EventState::Claimed);
    law_counts_are_numbers_of_rows(tables.inbound, EventState::Completed);
}

/// The answer to a claim is what the queue handed out, and nothing else.
pub proof fn law_claims_are_answered_with_the_event(
    tables: Tables,
    scope: Option<Seq<char>>,
    now: i64,
)
    ensures
        ({
            let (after, event) = tables.claim(scope, now);
            ends_with_answer(
                beginning(tables, RequestView::Claim { room_id: scope }, now),
                after,
                ResponseView {
                    ok: true,
                    status: Some(
                        if event is Some {
                            "claimed"@
                        } else {
                            "empty"@
                        },
                    ),
                    event,
                    queued: None,
                    claimed: None,
                    completed: None,
                    matrix_event_id: None,
                    room_id: None,
                    project_rooms: None,
                    error: None,
                },
            )
        }),
{
}

/// A second claim request less than two hours after the first is not answered with the same event.
pub proof fn law_workers_get_different_events(
    tables: Tables,
    first_scope: Option<Seq<char>>,
    second_scope: Option<Seq<char>>,
    first: i64,
    second: i64,
)
    requires
        tables.valid(),
        second - first < 7200,
    ensures
        ({
            let one = beginning(tables, RequestView::Claim { room_id: first_scope }, first);
            let two = beginning(
                one.tables,
                RequestView::Claim { room_id: second_scope },
                second,
            );
            let given = one.step->Respond_0.event;
            let again = two.step->Respond_0.event;
            &&& one.step is Respond && two.step is Respond
            &&& given is Some && again is Some ==> given->0.event_id != again->0.event_id
        }),
{
    if tables.claim(first_scope, first).1 is Some {
        law_work_in_hand_is_not_stolen(
            tables,
            first_scope,
            second_scope,
            first,
            second,
        );
    }
}

/// True when row `i` is being worked on, since less than two hours.
pub open spec fn is_held(tables: Tables, i: int, now: i64) -> bool {
    &&& 0 <= i < tables.inbound.len()
    &&& tables.inbound[i].state == EventState::Claimed
    &&& tables.inbound[i].claimed_at is Some
    &&& now - tables.inbound[i].claimed_at->0 < 7200
}

/// An event that is being worked on stays so for two hours, whatever is asked for meanwhile, until
/// it is released or answered. In that time no claim hands it out.
pub proof fn law_work_stays_in_hand_until_released_or_answered(
    tables: Tables,
    i: int,
    request: RequestView,
    stage: StageView,
    outcome: OutcomeView,
    now: i64,
)
    requires
        tables.valid(),
        is_held(tables, i, now),
    ensures
        ({
            let row = tables.inbound[i];
            let begun = beginning(tables, request, now);
            let resumed = continuation(tables, stage, outcome, now);
            &&& request != (RequestView::Release { event_id: row.event_id })
                ==> begun.tables.inbound.len() == tables.inbound.len() && begun.tables.inbound[i]
                == row
            &&& begun.step matches StepView::Respond(response) ==> (response.event matches Some(
                event,
            ) ==> event.event_id != row.event_id)
            &&& (stage matches StageView::SendReply { event_id, .. } ==> event_id != row.event_id)
                && (stage matches StageView::SendAudio { event_id, .. } ==> event_id
                != row.event_id) ==> resumed.tables.inbound.len() == tables.inbound.len()
                && resumed.tables.inbound[i] == row
        }),
{
    let row = tables.inbound[i];
    match request {
        RequestView::Claim { room_id } => {
            law_claiming_takes_the_first(tables, room_id, now);
            let after = tables.claim(room_id, now).0;
            match tables.claim(room_id, now).1 {
                Some(event) => {
                    let k = choose|k: int| #[trigger]
                        hands_out(tables, after, event, room_id, now, k);
                    assert(!may_be_claimed(row, room_id, now));
                    assert(k != i);
                    assert(after.inbound[i] == left_alone(row, now));
                    if k < i {
                        assert(tables.inbound[k].event_id != tables.inbound[i].event_id);
                    } else {
                        assert(tables.inbound[i].event_id != tables.inbound[k].event_id);
                    }
                },
                None => {
                    assert(after.inbound[i] == left_alone(row, now));
                },
            }
        },
        RequestView::Release { event_id } => {
            law_releasing_puts_back(tables, event_id);
            assert(tables.release(event_id).0.inbound[i] == row || event_id == row.event_id);
        },
        _ => {},
    }
    match stage {
        StageView::SendReply { event_id, .. } => {
            lemma_find_event(tables.inbound, event_id, 0);
        },
        StageView::SendAudio { event_id, .. } => {
            lemma_find_event(tables.inbound, event_id, 0);
        },
        _ => {},
    }
}

/// The answer to a release says whether the event was claimed.
pub proof fn law_releases_are_answered(tables: Tables, event_id: Seq<char>, now: i64)
    ensures
        ({
            let (after, changed) = tables.release(event_id);
            ends_with_answer(
                beginning(tables, RequestView::Release { event_id }, now),
                after,
                success(
                    if changed {
                        "released"@
                    } else {
                        "unchanged"@
                    },
                    None,
                    None,
                ),
            )
        }),
{
}

// ---------------------------------------------------------------------------
// Project rooms
// ---------------------------------------------------------------------------

/// Adding a project room: a slug that is none fails; a project that has a room is answered with
/// it; else a room of the right name is created, bound to the project, and named in the answer.
pub proof fn law_project_rooms_are_created_once(
    tables: Tables,
    project_slug: Seq<char>,
    display_name: Option<Seq<char>>,
    now: i64,
    meanwhile: Tables,
    room_id: Seq<char>,
    later: i64,
)
    ensures
        ({
            let slug = slug_of(project_slug);
            let request = RequestView::ProjectRoomAdd { project_slug, display_name };
            let first = beginning(tables, request, now);
            if !is_slug(slug) {
                ends_with_answer(first, tables, failure())
            } else if tables.project_room(slug) is Some {
                ends_with_answer(
                    first,
                    tables,
                    success("project_room_exists"@, None, tables.project_room(slug)),
                )
            } else {
                let created = OutcomeView::Created { room_id };
                let second = continuation(meanwhile, first.stage, created, later);
                let (after, result) = meanwhile.bind_room(room_id, Some(slug), later);
                &&& takes_step(
                    first,
                    tables,
                    StepView::CreateRoom { name: room_name(display_name, slug) },
                )
                &&& ends_with_answer(
                    second,
                    after,
                    if result == Ok::<(), StoreError>(()) {
                        success("project_room_created"@, None, Some(room_id))
                    } else {
                        failure()
                    },
                )
            }
        }),
{
}

/// Removing a project room: a slug that is none fails; a project without a room is answered so;
/// else the room is unbound before it is left.
pub proof fn law_project_rooms_are_unbound_and_left(
    tables: Tables,
    project_slug: Seq<char>,
    now: i64,
    meanwhile: Tables,
    later: i64,
)
    ensures
        ({
            let slug = slug_of(project_slug);
            let request = RequestView::ProjectRoomRemove { project_slug };
            let first = beginning(tables, request, now);
            if !is_slug(slug) {
                ends_with_answer(first, tables, failure())
            } else {
                match tables.project_room(slug) {
                    None => ends_with_answer(
                        first,
                        tables,
                        success("project_room_absent"@, None, None),
                    ),
                    Some(room_id) => if room_id.len() > 0 && room_id[0] == '!' && !room_id.contains(
                        '\0',
                    ) {
                        &&& takes_step(
                            first,
                            tables.unbind_room(room_id),
                            StepView::LeaveRoom { room_id },
                        )
                        &&& ends_with_answer(
                            continuation(meanwhile, first.stage, OutcomeView::Done, later),
                            meanwhile,
                            success("project_room_removed"@, None, Some(room_id)),
                        )
                    } else {
                        ends_with_answer(first, tables.unbind_room(room_id), failure())
                    },
                }
            }
        }),
{
}

/// The answer to a request for the list of project rooms is that list.
pub proof fn law_project_rooms_are_listed(tables: Tables, now: i64)
    ensures
        ends_with_answer(
            beginning(tables, RequestView::ProjectRoomList, now),
            tables,
            ResponseView {
                ok: true,
                status: Some("project_rooms"@),
                event: None,
                queued: None,
                claimed: None,
                completed: None,
                matrix_event_id: None,
                room_id: None,
                project_rooms: Some(tables.project_list()),
                error: None,
            },
        ),
{
}

/// Work that failed, or whose outcome does not belong to it, ends the course in failure and
/// changes nothing; only a spoken overview may fail.
pub proof fn law_unexpected_outcomes_fail(
    tables: Tables,
    stage: StageView,
    outcome: OutcomeView,
    now: i64,
)
    ensures
        ({
            let course = continuation(tables, stage, outcome, now);
            &&& outcome == OutcomeView::Failed && !(stage is SendAudio) ==> ends_with_answer(
                course,
                tables,
                failure(),
            )
            &&& stage == StageView::Finished ==> ends_with_answer(course, tables, failure())
            &&& outcome is Opened && outcome != opened() && !(stage is SendAudio)
                ==> ends_with_answer(course, tables, failure())
        }),
{
}

/// True when an outcome belongs to what a stage awaits.
pub open spec fn belongs(stage: StageView, outcome: OutcomeView) -> bool {
    match stage {
        StageView::StartRoom { .. } => outcome == opened(),
        StageView::ActivityRoom { .. } => outcome == opened(),
        StageView::SendRoom { .. } => outcome == opened(),
        StageView::StartTyping { .. } => outcome is Done,
        StageView::ActivityTyping { .. } => outcome is Done,
        StageView::ActivityEdit { .. } => outcome is Done,
        StageView::RemoveRoom { .. } => outcome is Done,
        StageView::StartNotice => outcome is Sent,
        StageView::SendReply { .. } => outcome is Sent,
        StageView::SendAudio { .. } => true,
        StageView::AddRoom { .. } => outcome is Created,
        StageView::Finished => false,
    }
}

/// An outcome that does not belong to what is awaited fails the course and changes nothing.
pub proof fn law_foreign_outcomes_fail(
    tables: Tables,
    stage: StageView,
    outcome: OutcomeView,
    now: i64,
)
    requires
        !belongs(stage, outcome),
    ensures
        ends_with_answer(continuation(tables, stage, outcome, now), tables, failure()),
{
}

/// The clock is read to claim, and to record what was sent or created; for nothing else.
pub proof fn law_clock_is_read_to_claim_and_to_record(
    request: RequestView,
    stage: StageView,
    outcome: OutcomeView,
)
    ensures
        begin_needs_clock(request) <==> request is Claim,
        resume_needs_clock(stage, outcome) <==> match stage {
            StageView::SendReply { body, voice, .. } => outcome is Sent && (!voice || overview(
                trim(body),
            ).len() == 0),
            StageView::SendAudio { .. } => true,
            StageView::AddRoom { .. } => outcome is Created,
            _ => false,
        },
{
}

/// A course is the tables of the store, the stage and the step that were given.
pub proof fn law_courses_are_what_was_given(store: StateStore, stage: Stage, step: Step)
    ensures
        course_of(store, (stage, step)).tables == store@,
        course_of(store, (stage, step)).stage == stage@,
        course_of(store, (stage, step)).step == step@,
{
}

/// What a stage carries is carried on unaltered, whatever it is: the answer to the reply, to its
/// record and to its speech, and the edit of a notice to the edit.
pub proof fn law_stages_carry_on_what_they_hold(
    tables: Tables,
    event_id: Seq<char>,
    idempotency_key: Seq<char>,
    body: Seq<char>,
    voice: bool,
    typing: bool,
    edit: EditView,
    status: Seq<char>,
    now: i64,
)
    ensures
        ({
            let stage = StageView::SendRoom { event_id, idempotency_key, body, voice };
            let course = continuation(tables, stage, opened(), now);
            &&& course.tables == tables
            &&& course.stage == StageView::SendReply { event_id, idempotency_key, body, voice }
            &&& course.step matches StepView::SendReply { body: sent, transaction_id: id }
                && sent == body && id == transaction_id(
                if voice {
                    idempotency_key + ":text"@
                } else {
                    idempotency_key
                },
            )
        }),
        ({
            let stage = StageView::ActivityRoom { typing, edit: Some(edit), status };
            let course = continuation(tables, stage, opened(), now);
            &&& takes_step(course, tables, StepView::SetTyping { typing })
            &&& edits_and_answers(
                continuation(tables, course.stage, OutcomeView::Done, now),
                tables,
                edit_to(edit.event_id, edit.body, edit.phase),
                edit.event_id,
                status,
                now,
            )
        }),
        ({
            let stage = StageView::ActivityRoom { typing, edit: None, status };
            let course = continuation(tables, stage, opened(), now);
            &&& takes_step(course, tables, StepView::SetTyping { typing })
            &&& ends_with_answer(
                continuation(tables, course.stage, OutcomeView::Done, now),
                tables,
                success(status, None, None),
            )
        }),
{
}

/// A notice is edited as the edit says, where its id is well formed.
pub proof fn law_edits_are_made_whole(tables: Tables, edit: EditView, status: Seq<char>)
    ensures
        takes_step(
            editing(tables, edit, status, true),
            tables,
            edit_to(edit.event_id, edit.body, edit.phase),
        ),
        editing(tables, edit, status, true).stage == (StageView::ActivityEdit { status }),
        ends_with_answer(editing(tables, edit, status, false), tables, failure()),
{
}

} // verus!
