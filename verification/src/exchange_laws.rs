//! What holds of every course of a request.

use vstd::prelude::*;

use crate::encoding::{
    hex_text, lemma_hex_text_injective, lemma_padded_decimal, lemma_padded_decimal_injective,
    padded_decimal,
};
use crate::exchange::{
    audio_key, beginning, completing, continuation, edit_key, failed, reply_key, sendable,
    start_key, EditView, OutcomeView, RequestView, StageView, StepView,
};
use crate::model::{lemma_find_event, Tables};
use crate::outbound::{audio_filename, digest_id, is_timestamp, number_after, transaction_id};
use crate::protocol::{done_response, error_response};
use crate::queue_laws::law_first_answer_is_read_back;
use crate::records::EventState;
use crate::text::is_digit;

verus! {

// ---------------------------------------------------------------------------
// Fixed texts
// ---------------------------------------------------------------------------

/// True for the texts that a notice may have.
pub open spec fn is_notice_text(body: Seq<char>) -> bool {
    body == "Processing…"@ || body == "Still working…"@ || body == "Done."@ || body == "Stopped."@
}

/// True for a stage whose pending edit, if it has one, has a fixed text.
pub open spec fn edit_is_fixed(stage: StageView) -> bool {
    match stage {
        StageView::ActivityRoom { edit: Some(edit), .. } => is_notice_text(edit.body),
        StageView::ActivityTyping { edit: Some(edit), .. } => is_notice_text(edit.body),
        _ => true,
    }
}

/// True for a step that sends no notice, or one of fixed text.
pub open spec fn notice_is_fixed(step: StepView) -> bool {
    match step {
        StepView::SendNotice { body, .. } => is_notice_text(body),
        StepView::EditNotice { body, .. } => is_notice_text(body),
        _ => true,
    }
}

/// Activity notices carry one of four fixed texts, and nothing that a client says: it holds of
/// every step of every course.
pub proof fn law_notices_are_fixed(
    tables: Tables,
    request: RequestView,
    stage: StageView,
    outcome: OutcomeView,
    now: i64,
)
    ensures
        notice_is_fixed(beginning(tables, request, now).step),
        edit_is_fixed(beginning(tables, request, now).stage),
        edit_is_fixed(stage) ==> notice_is_fixed(continuation(tables, stage, outcome, now).step)
            && edit_is_fixed(continuation(tables, stage, outcome, now).stage),
{
}

/// The only error that a course answers is that the operation failed.
pub proof fn law_errors_say_nothing_more(
    tables: Tables,
    request: RequestView,
    stage: StageView,
    outcome: OutcomeView,
    now: i64,
)
    ensures
        beginning(tables, request, now).step matches StepView::Respond(response) ==> response.ok
            || response == error_response("operation_failed"@),
        continuation(tables, stage, outcome, now).step matches StepView::Respond(response)
            ==> response.ok || response == error_response("operation_failed"@),
{
}

// ---------------------------------------------------------------------------
// Progress
// ---------------------------------------------------------------------------

/// The pieces of work that a course can still take.
pub open spec fn work_left(stage: StageView) -> nat {
    match stage {
        StageView::StartRoom { .. } => 3,
        StageView::StartTyping { .. } => 2,
        StageView::StartNotice => 1,
        StageView::ActivityRoom { .. } => 3,
        StageView::ActivityTyping { .. } => 2,
        StageView::ActivityEdit { .. } => 1,
        StageView::SendRoom { .. } => 3,
        StageView::SendReply { .. } => 2,
        StageView::SendAudio { .. } => 1,
        StageView::AddRoom { .. } => 1,
        StageView::RemoveRoom { .. } => 1,
        StageView::Finished => 0,
    }
}

/// Every course ends, after at most three pieces of work, with one response.
pub proof fn law_course_ends(
    tables: Tables,
    request: RequestView,
    stage: StageView,
    outcome: OutcomeView,
    now: i64,
)
    ensures
        work_left(beginning(tables, request, now).stage) <= 3,
        stage != StageView::Finished ==> work_left(continuation(tables, stage, outcome, now).stage)
            < work_left(stage),
        beginning(tables, request, now).stage == StageView::Finished <==> beginning(
            tables,
            request,
            now,
        ).step is Respond,
        continuation(tables, stage, outcome, now).stage == StageView::Finished <==> continuation(
            tables,
            stage,
            outcome,
            now,
        ).step is Respond,
{
}

/// Work that failed ends the course in failure and changes nothing, except that a spoken
/// overview may fail.
pub proof fn law_failed_work_changes_nothing(tables: Tables, stage: StageView, now: i64)
    requires
        !(stage is SendAudio),
    ensures
        continuation(tables, stage, OutcomeView::Failed, now) == failed(tables),
{
}

// ---------------------------------------------------------------------------
// Sending once
// ---------------------------------------------------------------------------

/// A retry of an answer that was sent sends nothing: it is answered with the id of the first.
pub proof fn law_retry_is_answered_from_record(
    tables: Tables,
    event_id: Seq<char>,
    idempotency_key: Seq<char>,
    matrix_event_id: Seq<char>,
    now: i64,
    other_event_id: Seq<char>,
    body: Seq<char>,
    later: i64,
)
    requires
        sendable(idempotency_key, body),
        !tables.outbound.contains_key(idempotency_key),
        completing(tables, event_id, idempotency_key, matrix_event_id, now).step
            != failed(tables).step,
    ensures
        ({
            let after = completing(tables, event_id, idempotency_key, matrix_event_id, now).tables;
            let retry = beginning(
                after,
                RequestView::Send { event_id: other_event_id, idempotency_key, body },
                later,
            );
            &&& retry.tables == after
            &&& retry.stage == StageView::Finished
            &&& retry.step == StepView::Respond(done_response("duplicate"@, Some(matrix_event_id)))
        }),
{
    law_first_answer_is_read_back(tables, event_id, idempotency_key, matrix_event_id, now);
}

/// A retry before the answer was recorded sends the same text under the same transaction id, so
/// that the homeserver takes it for the first.
pub proof fn law_retry_repeats_the_transaction(
    before: Tables,
    after: Tables,
    event_id: Seq<char>,
    idempotency_key: Seq<char>,
    body: Seq<char>,
    voice: bool,
    now: i64,
    later: i64,
)
    ensures
        ({
            let stage = StageView::SendRoom { event_id, idempotency_key, body, voice };
            let opened = OutcomeView::Opened { joined: true, encrypted: true };
            let first = continuation(before, stage, opened, now);
            let second = continuation(after, stage, opened, later);
            &&& first.step == second.step
            &&& first.step == (StepView::SendReply {
                body,
                transaction_id: transaction_id(reply_key(idempotency_key, voice)),
            })
        }),
{
}

/// A voice message is answered in text whether or not the spoken overview could be sent.
pub proof fn law_spoken_overview_may_fail(
    tables: Tables,
    event_id: Seq<char>,
    idempotency_key: Seq<char>,
    matrix_event_id: Seq<char>,
    first: OutcomeView,
    second: OutcomeView,
    now: i64,
)
    ensures
        ({
            let stage = StageView::SendAudio { event_id, idempotency_key, matrix_event_id };
            continuation(tables, stage, first, now) == continuation(tables, stage, second, now)
        }),
{
}

/// A send that is refused, or waits for the room, changes nothing.
pub proof fn law_send_changes_nothing_before_the_reply(
    tables: Tables,
    event_id: Seq<char>,
    idempotency_key: Seq<char>,
    body: Seq<char>,
    now: i64,
)
    ensures
        beginning(tables, RequestView::Send { event_id, idempotency_key, body }, now).tables
            == tables,
        !sendable(idempotency_key, body) ==> beginning(
            tables,
            RequestView::Send { event_id, idempotency_key, body },
            now,
        ) == failed(tables),
{
}

/// Whatever a request does in a room about an event, it does in the room that the event came
/// from.
pub proof fn law_work_stays_in_the_source_room(tables: Tables, request: RequestView, now: i64)
    ensures
        beginning(tables, request, now).step matches StepView::OpenRoom { room_id }
            ==> exists|i: int|
            0 <= i < tables.inbound.len() && (#[trigger] tables.inbound[i]).room_id == room_id
                && request_event(request) == Some(tables.inbound[i].event_id),
{
    if beginning(tables, request, now).step is OpenRoom {
        let event_id = request_event(request)->0;
        lemma_find_event(tables.inbound, event_id, 0);
        let i = tables.position(event_id)->0;
        assert(tables.inbound[i].event_id == event_id);
    }
}

/// True for a stage that awaits a room.
pub open spec fn awaits_room(stage: StageView) -> bool {
    stage is StartRoom || stage is ActivityRoom || stage is SendRoom
}

/// Nothing is done in a room that is not joined and encrypted: the course ends in failure and
/// changes nothing, whatever else came of opening the room.
pub proof fn law_work_needs_a_joined_encrypted_room(
    tables: Tables,
    stage: StageView,
    outcome: OutcomeView,
    now: i64,
)
    requires
        awaits_room(stage),
        outcome != (OutcomeView::Opened { joined: true, encrypted: true }),
    ensures
        continuation(tables, stage, outcome, now) == failed(tables),
{
}

/// A course that opens a room awaits it, and no other step comes before.
pub proof fn law_rooms_are_opened_first(
    tables: Tables,
    request: RequestView,
    stage: StageView,
    outcome: OutcomeView,
    now: i64,
)
    ensures
        beginning(tables, request, now).step is OpenRoom <==> awaits_room(
            beginning(tables, request, now).stage,
        ),
        ({
            let first = beginning(tables, request, now).step;
            first is Respond || first is OpenRoom || first is CreateRoom || first is LeaveRoom
        }),
        !awaits_room(continuation(tables, stage, outcome, now).stage),
{
}

/// The event that a request is about.
pub open spec fn request_event(request: RequestView) -> Option<Seq<char>> {
    match request {
        RequestView::ActivityStart { event_id } => Some(event_id),
        RequestView::ActivityHeartbeat { event_id, .. } => Some(event_id),
        RequestView::ActivityStop { event_id, .. } => Some(event_id),
        RequestView::Release { event_id } => Some(event_id),
        RequestView::Send { event_id, .. } => Some(event_id),
        _ => None,
    }
}

/// An answer that is reported as sent is recorded: its event is completed with it, and its key is
/// known from then on.
pub proof fn law_sent_answer_is_recorded(
    tables: Tables,
    event_id: Seq<char>,
    idempotency_key: Seq<char>,
    matrix_event_id: Seq<char>,
    now: i64,
)
    requires
        completing(tables, event_id, idempotency_key, matrix_event_id, now).step
            != failed(tables).step,
    ensures
        ({
            let after = completing(tables, event_id, idempotency_key, matrix_event_id, now).tables;
            let i = tables.position(event_id)->0;
            &&& tables.position(event_id) is Some
            &&& after.inbound[i].state == EventState::Completed
            &&& after.inbound[i].outbound_event_id == Some(matrix_event_id)
            &&& after.outbound.contains_key(idempotency_key)
        }),
{
    lemma_find_event(tables.inbound, event_id, 0);
}

// ---------------------------------------------------------------------------
// Transaction ids
// ---------------------------------------------------------------------------

/// The text and the spoken overview of one answer are sent under different keys, and so are the
/// start of a turn and the edits of its notice.
pub proof fn law_purposes_have_keys_of_their_own(
    idempotency_key: Seq<char>,
    event_id: Seq<char>,
    edit: EditView,
)
    ensures
        reply_key(idempotency_key, true) != audio_key(idempotency_key),
        reply_key(idempotency_key, true) != reply_key(idempotency_key, false),
        reply_key(idempotency_key, false) != audio_key(idempotency_key),
        start_key(event_id) != edit_key(edit),
{
    reveal_strlit(":text");
    reveal_strlit(":audio");
    reveal_strlit("activity-start:");
    reveal_strlit("activity-edit:");
    assert(reply_key(idempotency_key, true).len() == idempotency_key.len() + 5);
    assert(audio_key(idempotency_key).len() == idempotency_key.len() + 6);
    let a = start_key(event_id);
    let b = edit_key(edit);
    assert(a[9] == "activity-start:"@[9]);
    assert(b[9] == "activity-edit:"@[9]);
}

/// Different phases of one notice are edited under different keys.
pub proof fn law_phases_have_keys_of_their_own(
    event_id: Seq<char>,
    first: EditView,
    second: EditView,
)
    requires
        first.event_id == event_id,
        second.event_id == event_id,
        first.phase != second.phase,
    ensures
        edit_key(first) != edit_key(second),
{
    let head = "activity-edit:"@ + event_id + ":"@;
    let a = edit_key(first);
    let b = edit_key(second);
    assert(a =~= head + first.phase);
    assert(b =~= head + second.phase);
    if a == b {
        assert(a.len() == b.len());
        assert forall|i: int| 0 <= i < first.phase.len() implies first.phase[i]
            == second.phase[i] by {
            assert(a[head.len() + i] == first.phase[i]);
            assert(b[head.len() + i] == second.phase[i]);
        }
        assert(first.phase =~= second.phase);
    }
}

/// True for a lower-case hexadecimal digit.
pub open spec fn is_hex(c: char) -> bool {
    '0' <= c <= '9' || 'a' <= c <= 'f'
}

/// A transaction id shows nothing of its key: behind a fixed prefix it is hexadecimal, two digits
/// for each byte of the digest.
pub proof fn law_transaction_id_is_opaque(digest: Seq<u8>)
    ensures
        digest_id(digest).len() == 7 + 2 * digest.len(),
        forall|i: int|
            7 <= i < digest_id(digest).len() ==> is_hex(#[trigger] digest_id(digest)[i]),
{
    reveal_strlit("matrix_");
    let id = digest_id(digest);
    assert forall|i: int| 7 <= i < id.len() implies is_hex(#[trigger] id[i]) by {
        assert(id[i] == hex_text(digest)[i - 7]);
    }
}

/// Equal digests are the only way to equal transaction ids.
pub proof fn law_transaction_id_shows_the_digest(first: Seq<u8>, second: Seq<u8>)
    requires
        digest_id(first) == digest_id(second),
    ensures
        first == second,
{
    let a = hex_text(first);
    let b = hex_text(second);
    let n = "matrix_"@.len() as int;
    assert(digest_id(first).skip(n) =~= a);
    assert(digest_id(second).skip(n) =~= b);
    lemma_hex_text_injective(first, second);
}

/// Audio files with different numbers have different names, whenever they were made: a second
/// file in the same moment does not take the name of the first, nor does one after the clock was
/// set back.
pub proof fn law_audio_filenames_differ(
    earlier: Seq<char>,
    later: Seq<char>,
    first: u64,
    second: u64,
)
    requires
        is_timestamp(earlier),
        is_timestamp(later),
        first != second,
    ensures
        audio_filename(earlier, first) != audio_filename(later, second),
{
    reveal_strlit("-");
    let head = "matrix-reply-"@;
    let tail = ".mp3"@;
    let x = padded_decimal(first as nat, 8);
    let y = padded_decimal(second as nat, 8);
    let a = audio_filename(earlier, first);
    let b = audio_filename(later, second);
    if a == b {
        let n = head.len() as int;
        assert(a[n + earlier.len()] == '-');
        assert(b[n + later.len()] == '-');
        if earlier.len() < later.len() {
            assert(b[n + earlier.len()] == later[earlier.len() as int]);
        } else if later.len() < earlier.len() {
            assert(a[n + later.len()] == earlier[later.len() as int]);
        }
        let from = n + earlier.len() + 1;
        let to = a.len() - tail.len();
        assert(a.subrange(from, to) =~= x);
        assert(b.subrange(from, to) =~= y);
        lemma_padded_decimal_injective(first as nat, second as nat, 8);
    }
}

/// The number in the name of an audio file has at least eight digits, and nothing but digits. It
/// stands between the timestamp's hyphen and the end.
pub proof fn law_audio_numbers_are_digits(timestamp: Seq<char>, sequence: u64)
    ensures
        padded_decimal(sequence as nat, 8).len() >= 8,
        forall|i: int|
            0 <= i < padded_decimal(sequence as nat, 8).len() ==> is_digit(
                #[trigger] padded_decimal(sequence as nat, 8)[i],
            ),
        audio_filename(timestamp, sequence) == "matrix-reply-"@ + timestamp + "-"@
            + padded_decimal(sequence as nat, 8) + ".mp3"@,
{
    lemma_padded_decimal(sequence as nat, 8);
}

/// The number that a counter comes to after `calls` calls.
pub open spec fn number_at(start: u64, calls: nat) -> u64
    decreases calls,
{
    if calls == 0 {
        start
    } else {
        number_after(number_at(start, (calls - 1) as nat))
    }
}

proof fn lemma_number_at(calls: nat)
    requires
        calls <= u64::MAX,
    ensures
        number_at(0, calls) == calls,
    decreases calls,
{
    if calls > 0 {
        lemma_number_at((calls - 1) as nat);
    }
}

/// One process gives no two audio files the same name, for as long as it makes fewer than 2^64 of
/// them.
pub proof fn law_audio_names_do_not_repeat(
    earlier: Seq<char>,
    later: Seq<char>,
    first: nat,
    second: nat,
)
    requires
        is_timestamp(earlier),
        is_timestamp(later),
        first < second <= u64::MAX,
    ensures
        audio_filename(earlier, number_at(0, first)) != audio_filename(later, number_at(0, second)),
{
    lemma_number_at(first);
    lemma_number_at(second);
    law_audio_filenames_differ(earlier, later, number_at(0, first), number_at(0, second));
}

} // verus!
