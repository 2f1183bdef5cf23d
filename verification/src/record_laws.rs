//! What the values of the library stand for, what of them is sound, and what a restart makes of
//! them.

use vstd::prelude::*;

use crate::encoding::encodable;
use crate::exchange::{
    option_edit, EditView, NoticeEdit, Outcome, OutcomeView, RequestView, Stage, StageView, Step,
    StepView,
};
use crate::inbound::{Arrival, Content, ContentView};
use crate::keyed::{lemma_keyed_contains, lemma_keyed_row};
use crate::model::{ChangeRecord, InboundRecord, Tables};
use crate::operation_laws::{law_binding_enables_the_room, waiting};
use crate::protocol::Request;
use crate::queue_laws::{law_restart_requeues_claims, lemma_bind_all_keeps_others};
use crate::records::{
    Change, EventState, InboundEvent, InboundRow, OutboundRow, ProactiveRow, ProjectRoomBinding,
    RoomRow, Snapshot, SourceEventContext,
};
use crate::store::{
    binding_pairs, change_records, option_event, outbound_records, proactive_records, room_records,
};
use crate::text::{option_str, option_text};

verus! {

// ---------------------------------------------------------------------------
// Requests, steps and stages
// ---------------------------------------------------------------------------

/// An optional text stands for its characters.
pub proof fn law_optional_texts_stand_for_their_characters(
    text: Option<String>,
    slice: Option<&str>,
    event: Option<InboundEvent>,
)
    ensures
        option_text(text) is Some <==> text is Some,
        text matches Some(s) ==> option_text(text) == Some(s@),
        option_str(slice) is Some <==> slice is Some,
        slice matches Some(s) ==> option_str(slice) == Some(s@),
        option_event(event) is Some <==> event is Some,
        event matches Some(e) ==> option_event(event) == Some(e@),
{
}

/// A request is seen whole: nothing of it is left out or altered.
pub proof fn law_requests_are_seen_whole(request: Request)
    ensures
        request is Status ==> request@ == RequestView::Status,
        request matches Request::Claim { room_id } ==> request@ == (RequestView::Claim {
            room_id: option_text(room_id),
        }),
        request matches Request::ActivityStart { event_id } ==> request@
            == (RequestView::ActivityStart { event_id: event_id@ }),
        request matches Request::ActivityHeartbeat { event_id, status_event_id, long_running }
            ==> request@ == (RequestView::ActivityHeartbeat {
            event_id: event_id@,
            status_event_id: option_text(status_event_id),
            long_running,
        }),
        request matches Request::ActivityStop { event_id, status_event_id, outcome } ==> request@
            == (RequestView::ActivityStop {
            event_id: event_id@,
            status_event_id: option_text(status_event_id),
            outcome,
        }),
        request matches Request::Release { event_id } ==> request@ == (RequestView::Release {
            event_id: event_id@,
        }),
        request matches Request::Send { event_id, idempotency_key, body } ==> request@
            == (RequestView::Send {
            event_id: event_id@,
            idempotency_key: idempotency_key@,
            body: body@,
        }),
        request matches Request::ProjectRoomAdd { project_slug, display_name } ==> request@
            == (RequestView::ProjectRoomAdd {
            project_slug: project_slug@,
            display_name: option_text(display_name),
        }),
        request matches Request::ProjectRoomRemove { project_slug } ==> request@
            == (RequestView::ProjectRoomRemove { project_slug: project_slug@ }),
        request is ProjectRoomList ==> request@ == RequestView::ProjectRoomList,
{
}

/// A step is seen whole.
pub proof fn law_steps_are_seen_whole(step: Step)
    ensures
        step matches Step::Respond(response) ==> step@ == StepView::Respond(response@),
        step matches Step::OpenRoom { room_id } ==> step@ == (StepView::OpenRoom {
            room_id: room_id@,
        }),
        step matches Step::SetTyping { typing } ==> step@ == (StepView::SetTyping { typing }),
        step matches Step::SendNotice { body, transaction_id } ==> step@ == (StepView::SendNotice {
            body: body@,
            transaction_id: transaction_id@,
        }),
        step matches Step::EditNotice { event_id, body, transaction_id } ==> step@
            == (StepView::EditNotice {
            event_id: event_id@,
            body: body@,
            transaction_id: transaction_id@,
        }),
        step matches Step::SendReply { body, transaction_id } ==> step@ == (StepView::SendReply {
            body: body@,
            transaction_id: transaction_id@,
        }),
        step matches Step::SendAudio { speech, transaction_id } ==> step@ == (StepView::SendAudio {
            speech: speech@,
            transaction_id: transaction_id@,
        }),
        step matches Step::CreateRoom { name } ==> step@ == (StepView::CreateRoom { name: name@ }),
        step matches Step::LeaveRoom { room_id } ==> step@ == (StepView::LeaveRoom {
            room_id: room_id@,
        }),
{
}

/// An outcome is seen whole.
pub proof fn law_outcomes_are_seen_whole(outcome: Outcome)
    ensures
        outcome is Done ==> outcome@ == OutcomeView::Done,
        outcome matches Outcome::Opened { joined, encrypted } ==> outcome@ == (OutcomeView::Opened {
            joined,
            encrypted,
        }),
        outcome matches Outcome::Sent { event_id } ==> outcome@ == (OutcomeView::Sent {
            event_id: event_id@,
        }),
        outcome matches Outcome::Created { room_id } ==> outcome@ == (OutcomeView::Created {
            room_id: room_id@,
        }),
        outcome is Failed ==> outcome@ == OutcomeView::Failed,
{
}

/// The edit of a notice is seen whole.
pub proof fn law_edits_are_seen_whole(edit: NoticeEdit)
    ensures
        edit@ == (EditView { event_id: edit.event_id@, body: edit.body@, phase: edit.phase@ }),
        option_edit(Some(edit)) == Some(edit@),
        option_edit(None) is None,
{
}

/// What is kept between two steps is seen whole.
pub proof fn law_stages_are_seen_whole(stage: Stage)
    ensures
        stage matches Stage::SendRoom { event_id, idempotency_key, body, voice } ==> stage@
            == (StageView::SendRoom {
            event_id: event_id@,
            idempotency_key: idempotency_key@,
            body: body@,
            voice,
        }),
        stage matches Stage::SendReply { event_id, idempotency_key, body, voice } ==> stage@
            == (StageView::SendReply {
            event_id: event_id@,
            idempotency_key: idempotency_key@,
            body: body@,
            voice,
        }),
        stage matches Stage::SendAudio { event_id, idempotency_key, matrix_event_id } ==> stage@
            == (StageView::SendAudio {
            event_id: event_id@,
            idempotency_key: idempotency_key@,
            matrix_event_id: matrix_event_id@,
        }),
        stage matches Stage::StartRoom { event_id } ==> stage@ == (StageView::StartRoom {
            event_id: event_id@,
        }),
        stage matches Stage::StartTyping { event_id } ==> stage@ == (StageView::StartTyping {
            event_id: event_id@,
        }),
        stage matches Stage::AddRoom { project_slug } ==> stage@ == (StageView::AddRoom {
            project_slug: project_slug@,
        }),
        stage matches Stage::RemoveRoom { room_id } ==> stage@ == (StageView::RemoveRoom {
            room_id: room_id@,
        }),
        stage matches Stage::ActivityRoom { typing, edit, status } ==> stage@
            == (StageView::ActivityRoom { typing, edit: option_edit(edit), status: status@ }),
        stage matches Stage::ActivityTyping { edit, status } ==> stage@
            == (StageView::ActivityTyping { edit: option_edit(edit), status: status@ }),
        stage matches Stage::ActivityEdit { status } ==> stage@ == (StageView::ActivityEdit {
            status: status@,
        }),
        stage is StartNotice <==> stage@ is StartNotice,
        stage is Finished <==> stage@ is Finished,
{
}

// ---------------------------------------------------------------------------
// Messages and events
// ---------------------------------------------------------------------------

/// An arrival is seen whole.
pub proof fn law_arrivals_are_seen_whole(arrival: Arrival)
    ensures
        arrival@.event_id == arrival.event_id@,
        arrival@.room_id == arrival.room_id@,
        arrival@.sender == arrival.sender@,
        arrival@.own_user == arrival.own_user@,
        arrival@.joined == arrival.joined,
        arrival@.encrypted == arrival.encrypted,
        arrival@.related == arrival.related,
{
}

/// Content is seen whole.
pub proof fn law_content_is_seen_whole(content: Content)
    ensures
        content matches Content::Text { body } ==> content@ == (ContentView::Text { body: body@ }),
        content matches Content::Voice { transcript } ==> content@ == (ContentView::Voice {
            transcript: option_text(transcript),
        }),
        content matches Content::Image { caption, declared, data } ==> content@
            == (ContentView::Image {
            caption: caption@,
            declared: option_text(declared),
            data: data@,
        }),
        content is Other ==> content@ == ContentView::Other,
{
}

/// An event that is handed out, a binding and a source are seen whole.
pub proof fn law_events_are_seen_whole(
    event: InboundEvent,
    binding: ProjectRoomBinding,
    source: SourceEventContext,
)
    ensures
        event@.event_id == event.event_id@,
        event@.room_id == event.room_id@,
        event@.body == event.body@,
        event@.kind == event.kind@,
        event@.image is Some <==> event.image is Some,
        event.image matches Some(image) ==> event@.image->0.media_type == image.media_type@
            && event@.image->0.data == image.data@,
        binding@ == (binding.project_slug@, binding.room_id@),
        source@ == (source.room_id@, source.kind@),
{
}

// ---------------------------------------------------------------------------
// Rows
// ---------------------------------------------------------------------------

/// An inbound row is seen whole.
pub proof fn law_inbound_rows_are_seen_whole(row: InboundRow)
    ensures
        row@.sequence == row.sequence,
        row@.event_id == row.event_id@,
        row@.room_id == row.room_id@,
        row@.body == row.body@,
        row@.kind == row.kind,
        row@.state == row.state,
        row@.received_at == row.received_at,
        row@.claimed_at == row.claimed_at,
        row@.outbound_event_id == option_text(row.outbound_event_id),
        row@.image_mime == option_text(row.image_mime),
        row@.image_data is Some <==> row.image_data is Some,
        row.image_data matches Some(data) ==> row@.image_data == Some(data@),
{
}

/// The rows of the other tables are seen whole.
pub proof fn law_keyed_rows_are_seen_whole(
    answer: OutboundRow,
    room: RoomRow,
    message: ProactiveRow,
)
    ensures
        answer@.0 == answer.idempotency_key@,
        answer@.1.source_event_id == answer.source_event_id@,
        answer@.1.matrix_event_id == answer.matrix_event_id@,
        answer@.1.sent_at == answer.sent_at,
        room@.0 == room.room_id@,
        room@.1.enabled == room.enabled,
        room@.1.project_slug == option_text(room.project_slug),
        room@.1.created_at == room.created_at,
        room@.1.updated_at == room.updated_at,
        message@.0 == message.idempotency_key@,
        message@.1.matrix_event_id == message.matrix_event_id@,
        message@.1.sent_at == message.sent_at,
{
}

/// Changes are seen whole, one for one and in order.
pub proof fn law_changes_are_seen_whole(changes: Seq<Change>, i: int)
    requires
        0 <= i < changes.len(),
    ensures
        change_records(changes).len() == changes.len(),
        changes[i] matches Change::Inbound(row) ==> change_records(changes)[i]
            == ChangeRecord::Inbound(row@),
        changes[i] matches Change::Outbound(row) ==> change_records(changes)[i]
            == ChangeRecord::Outbound(row@.0, row@.1),
        changes[i] matches Change::Room(row) ==> change_records(changes)[i] == ChangeRecord::Room(
            row@.0,
            row@.1,
        ),
        changes[i] matches Change::RoomRemoved(room_id) ==> change_records(changes)[i]
            == ChangeRecord::RoomRemoved(room_id@),
        changes[i] matches Change::Proactive(row) ==> change_records(changes)[i]
            == ChangeRecord::Proactive(row@.0, row@.1),
{
}

/// A list of bindings is seen whole, one for one and in order.
pub proof fn law_binding_lists_are_seen_whole(list: Seq<ProjectRoomBinding>, i: int)
    requires
        0 <= i < list.len(),
    ensures
        binding_pairs(list).len() == list.len(),
        binding_pairs(list)[i] == (list[i].project_slug@, list[i].room_id@),
{
}

// ---------------------------------------------------------------------------
// Snapshots
// ---------------------------------------------------------------------------

/// The tables of a sound snapshot hold each of its rows, under its key, and nothing else.
pub proof fn law_snapshots_hold_their_rows(snapshot: Snapshot, key: Seq<char>)
    requires
        snapshot.sound(),
    ensures
        ({
            let tables = snapshot.tables();
            &&& tables.inbound.len() == snapshot.inbound@.len()
            &&& forall|i: int|
                0 <= i < snapshot.inbound@.len() ==> (#[trigger] tables.inbound[i])
                    == snapshot.inbound@[i]@
            &&& forall|i: int|
                0 <= i < snapshot.outbound@.len() ==> {
                    let row = (#[trigger] snapshot.outbound@[i])@;
                    tables.outbound.contains_key(row.0) && tables.outbound[row.0] == row.1
                }
            &&& forall|i: int|
                0 <= i < snapshot.rooms@.len() ==> {
                    let row = (#[trigger] snapshot.rooms@[i])@;
                    tables.rooms.contains_key(row.0) && tables.rooms[row.0] == row.1
                }
            &&& forall|i: int|
                0 <= i < snapshot.proactive@.len() ==> {
                    let row = (#[trigger] snapshot.proactive@[i])@;
                    tables.proactive.contains_key(row.0) && tables.proactive[row.0] == row.1
                }
            &&& tables.outbound.contains_key(key) ==> exists|i: int|
                0 <= i < snapshot.outbound@.len() && (#[trigger] snapshot.outbound@[i])@.0 == key
            &&& tables.rooms.contains_key(key) ==> exists|i: int|
                0 <= i < snapshot.rooms@.len() && (#[trigger] snapshot.rooms@[i])@.0 == key
            &&& tables.proactive.contains_key(key) ==> exists|i: int|
                0 <= i < snapshot.proactive@.len() && (#[trigger] snapshot.proactive@[i])@.0 == key
        }),
{
    let tables = snapshot.tables();
    let answers = outbound_records(snapshot.outbound@);
    let rooms = room_records(snapshot.rooms@);
    let messages = proactive_records(snapshot.proactive@);
    assert forall|i: int| 0 <= i < snapshot.outbound@.len() implies {
        let row = (#[trigger] snapshot.outbound@[i])@;
        tables.outbound.contains_key(row.0) && tables.outbound[row.0] == row.1
    } by {
        assert(answers[i] == snapshot.outbound@[i]@);
        lemma_keyed_row(answers, i);
    }
    assert forall|i: int| 0 <= i < snapshot.rooms@.len() implies {
        let row = (#[trigger] snapshot.rooms@[i])@;
        tables.rooms.contains_key(row.0) && tables.rooms[row.0] == row.1
    } by {
        assert(rooms[i] == snapshot.rooms@[i]@);
        lemma_keyed_row(rooms, i);
    }
    assert forall|i: int| 0 <= i < snapshot.proactive@.len() implies {
        let row = (#[trigger] snapshot.proactive@[i])@;
        tables.proactive.contains_key(row.0) && tables.proactive[row.0] == row.1
    } by {
        assert(messages[i] == snapshot.proactive@[i]@);
        lemma_keyed_row(messages, i);
    }
    lemma_keyed_contains(answers, key);
    lemma_keyed_contains(rooms, key);
    lemma_keyed_contains(messages, key);
    if tables.outbound.contains_key(key) {
        let i = choose|i: int| 0 <= i < answers.len() && (#[trigger] answers[i]).0 == key;
        assert(snapshot.outbound@[i]@.0 == key);
    }
    if tables.rooms.contains_key(key) {
        let i = choose|i: int| 0 <= i < rooms.len() && (#[trigger] rooms[i]).0 == key;
        assert(snapshot.rooms@[i]@.0 == key);
    }
    if tables.proactive.contains_key(key) {
        let i = choose|i: int| 0 <= i < messages.len() && (#[trigger] messages[i]).0 == key;
        assert(snapshot.proactive@[i]@.0 == key);
    }
}

/// True when rows are in order: by number, and with no event twice.
pub open spec fn rows_are_in_order(snapshot: Snapshot) -> bool {
    forall|i: int, j: int|
        0 <= i < j < snapshot.inbound@.len() ==> (#[trigger] snapshot.inbound@[i]).sequence < (
        #[trigger] snapshot.inbound@[j]).sequence && snapshot.inbound@[i].event_id@
            != snapshot.inbound@[j].event_id@
}

/// True when no key of a table and no project has two rows.
pub open spec fn keys_are_distinct(snapshot: Snapshot) -> bool {
    &&& forall|i: int, j: int|
        0 <= i < j < snapshot.outbound@.len() ==> (
        #[trigger] snapshot.outbound@[i]).idempotency_key@ != (
        #[trigger] snapshot.outbound@[j]).idempotency_key@
    &&& forall|i: int, j: int|
        0 <= i < j < snapshot.proactive@.len() ==> (
        #[trigger] snapshot.proactive@[i]).idempotency_key@ != (
        #[trigger] snapshot.proactive@[j]).idempotency_key@
    &&& forall|i: int, j: int|
        0 <= i < j < snapshot.rooms@.len() ==> (#[trigger] snapshot.rooms@[i]).room_id@ != (
        #[trigger] snapshot.rooms@[j]).room_id@ && (snapshot.rooms@[i].project_slug is Some
            && snapshot.rooms@[j].project_slug is Some ==> snapshot.rooms@[i].project_slug->0@
            != snapshot.rooms@[j].project_slug->0@)
}

/// True when every image has a base64 text that fits in memory.
pub open spec fn images_are_bounded(snapshot: Snapshot) -> bool {
    forall|i: int|
        0 <= i < snapshot.inbound@.len() && (#[trigger] snapshot.inbound@[i]).image_data is Some
            ==> 4 * ((snapshot.inbound@[i].image_data->0@.len() + 2) / 3) <= isize::MAX
}

proof fn lemma_sound_rooms(snapshot: Snapshot)
    requires
        snapshot.sound(),
    ensures
        keys_are_distinct(snapshot),
{
    let tables = snapshot.tables();
    let answers = outbound_records(snapshot.outbound@);
    let rooms = room_records(snapshot.rooms@);
    let messages = proactive_records(snapshot.proactive@);
    assert forall|i: int, j: int| 0 <= i < j < snapshot.outbound@.len() implies (
    #[trigger] snapshot.outbound@[i]).idempotency_key@ != (
    #[trigger] snapshot.outbound@[j]).idempotency_key@ by {
        assert(answers[i].0 != answers[j].0);
    }
    assert forall|i: int, j: int| 0 <= i < j < snapshot.proactive@.len() implies (
    #[trigger] snapshot.proactive@[i]).idempotency_key@ != (
    #[trigger] snapshot.proactive@[j]).idempotency_key@ by {
        assert(messages[i].0 != messages[j].0);
    }
    assert forall|i: int, j: int| 0 <= i < j < snapshot.rooms@.len() implies (
    #[trigger] snapshot.rooms@[i]).room_id@ != (#[trigger] snapshot.rooms@[j]).room_id@ && (
    snapshot.rooms@[i].project_slug is Some && snapshot.rooms@[j].project_slug is Some
        ==> snapshot.rooms@[i].project_slug->0@ != snapshot.rooms@[j].project_slug->0@) by {
        assert(rooms[i].0 != rooms[j].0);
        lemma_keyed_row(rooms, i);
        lemma_keyed_row(rooms, j);
        let a = rooms[i].0;
        let b = rooms[j].0;
        assert(tables.rooms[a] == rooms[i].1);
        assert(tables.rooms[b] == rooms[j].1);
    }
}

proof fn lemma_distinct_rooms(snapshot: Snapshot)
    requires
        rows_are_in_order(snapshot),
        keys_are_distinct(snapshot),
        images_are_bounded(snapshot),
    ensures
        snapshot.sound(),
{
    let tables = snapshot.tables();
    let answers = outbound_records(snapshot.outbound@);
    let rooms = room_records(snapshot.rooms@);
    let messages = proactive_records(snapshot.proactive@);
    assert forall|i: int, j: int| 0 <= i < j < answers.len() implies (#[trigger] answers[i]).0 != (
    #[trigger] answers[j]).0 by {
        assert(snapshot.outbound@[i].idempotency_key@ != snapshot.outbound@[j].idempotency_key@);
    }
    assert forall|i: int, j: int| 0 <= i < j < messages.len() implies (#[trigger] messages[i]).0 != (
    #[trigger] messages[j]).0 by {
        assert(snapshot.proactive@[i].idempotency_key@ != snapshot.proactive@[j].idempotency_key@);
    }
    assert forall|i: int, j: int| 0 <= i < j < rooms.len() implies (#[trigger] rooms[i]).0 != (
    #[trigger] rooms[j]).0 by {
        assert(snapshot.rooms@[i].room_id@ != snapshot.rooms@[j].room_id@);
    }
    assert forall|i: int, j: int| 0 <= i < j < tables.inbound.len() implies (
    #[trigger] tables.inbound[i]).sequence < (#[trigger] tables.inbound[j]).sequence
        && tables.inbound[i].event_id != tables.inbound[j].event_id by {
        assert(snapshot.inbound@[i].sequence < snapshot.inbound@[j].sequence);
    }
    assert forall|i: int| 0 <= i < tables.inbound.len() implies (
    #[trigger] tables.inbound[i]).image_data is Some ==> encodable(
        tables.inbound[i].image_data->0.len(),
    ) by {
        assert(snapshot.inbound@[i]@ == tables.inbound[i]);
    }
    assert forall|a: Seq<char>, b: Seq<char>|
        #![trigger tables.rooms[a], tables.rooms[b]]
        tables.rooms.contains_key(a) && tables.rooms.contains_key(b) && a != b
            && tables.rooms[a].project_slug is Some implies tables.rooms[a].project_slug
        != tables.rooms[b].project_slug by {
        lemma_keyed_contains(rooms, a);
        lemma_keyed_contains(rooms, b);
        let i = choose|i: int| 0 <= i < rooms.len() && (#[trigger] rooms[i]).0 == a;
        let j = choose|j: int| 0 <= j < rooms.len() && (#[trigger] rooms[j]).0 == b;
        lemma_keyed_row(rooms, i);
        lemma_keyed_row(rooms, j);
        assert(rooms[i] == snapshot.rooms@[i]@);
        assert(rooms[j] == snapshot.rooms@[j]@);
        if i < j {
            assert(snapshot.rooms@[i].room_id@ != snapshot.rooms@[j].room_id@);
        } else {
            assert(snapshot.rooms@[j].room_id@ != snapshot.rooms@[i].room_id@);
        }
    }
}

/// A snapshot is sound when its rows are in order, no key and no project occurs twice, and its
/// images can be handed out. Nothing else is asked of it.
pub proof fn law_sound_snapshots_keep_the_rules(snapshot: Snapshot)
    ensures
        snapshot.sound() <==> rows_are_in_order(snapshot) && keys_are_distinct(snapshot)
            && images_are_bounded(snapshot),
{
    let tables = snapshot.tables();
    if snapshot.sound() {
        lemma_sound_rooms(snapshot);
        assert forall|i: int, j: int| 0 <= i < j < snapshot.inbound@.len() implies (
        #[trigger] snapshot.inbound@[i]).sequence < (#[trigger] snapshot.inbound@[j]).sequence
            && snapshot.inbound@[i].event_id@ != snapshot.inbound@[j].event_id@ by {
            assert(tables.inbound[i].sequence < tables.inbound[j].sequence);
            assert(tables.inbound[i].event_id != tables.inbound[j].event_id);
        }
        assert forall|i: int|
            0 <= i < snapshot.inbound@.len() && (#[trigger] snapshot.inbound@[i]).image_data
                is Some implies 4 * ((snapshot.inbound@[i].image_data->0@.len() + 2) / 3)
            <= isize::MAX by {
            assert(tables.inbound[i].image_data is Some);
            assert(encodable(tables.inbound[i].image_data->0.len()));
        }
    }
    if rows_are_in_order(snapshot) && keys_are_distinct(snapshot) && images_are_bounded(snapshot) {
        lemma_distinct_rooms(snapshot);
    }
}

// ---------------------------------------------------------------------------
// Restarts
// ---------------------------------------------------------------------------

/// The row in the given room, if it had none.
pub open spec fn housed(row: InboundRecord, default_room_id: Seq<char>) -> InboundRecord {
    InboundRecord {
        sequence: row.sequence,
        event_id: row.event_id,
        room_id: if row.room_id.len() == 0 {
            default_room_id
        } else {
            row.room_id
        },
        body: row.body,
        kind: row.kind,
        state: row.state,
        received_at: row.received_at,
        claimed_at: row.claimed_at,
        outbound_event_id: row.outbound_event_id,
        image_mime: row.image_mime,
        image_data: row.image_data,
    }
}

proof fn lemma_bound_rooms(tables: Tables, room_ids: Seq<Seq<char>>, now: i64, id: Seq<char>)
    requires
        room_ids.contains(id),
    ensures
        ({
            let after = tables.bind_all(room_ids, now);
            &&& after.rooms.contains_key(id)
            &&& after.rooms[id].enabled
            &&& after.rooms[id].project_slug is None
            &&& after.rooms[id].updated_at == now
            &&& after.rooms[id].created_at == if tables.rooms.contains_key(id) {
                tables.rooms[id].created_at
            } else {
                now
            }
        }),
    decreases room_ids.len(),
{
    let rest = room_ids.drop_last();
    let before = tables.bind_all(rest, now);
    law_binding_enables_the_room(before, room_ids.last(), None, now);
    if rest.contains(id) {
        lemma_bound_rooms(tables, rest, now, id);
    } else {
        let k = choose|k: int| 0 <= k < room_ids.len() && room_ids[k] == id;
        if k < rest.len() {
            assert(rest[k] == id);
        }
        lemma_bind_all_keeps_others(tables, rest, now, id);
    }
}

/// After a restart events without a room are in the default room, and those that were worked on
/// wait again; nothing else of any event has changed. The allowed rooms are enabled, without a
/// project, and all other rooms are as they were. Answers and messages are kept.
pub proof fn law_restart_keeps_everything_but_claims(
    tables: Tables,
    default_room_id: Seq<char>,
    allowed_rooms: Seq<Seq<char>>,
    now: i64,
)
    ensures
        ({
            let after = tables.opened(default_room_id, allowed_rooms, now);
            &&& after.outbound == tables.outbound
            &&& after.proactive == tables.proactive
            &&& after.inbound.len() == tables.inbound.len()
            &&& forall|i: int|
                0 <= i < tables.inbound.len() ==> #[trigger] after.inbound[i] == if tables.inbound[i].state
                    == EventState::Claimed {
                    waiting(housed(tables.inbound[i], default_room_id))
                } else {
                    housed(tables.inbound[i], default_room_id)
                }
            &&& forall|id: Seq<char>| #[trigger]
                allowed_rooms.contains(id) ==> {
                    &&& after.rooms.contains_key(id)
                    &&& after.rooms[id].enabled
                    &&& after.rooms[id].project_slug is None
                    &&& after.rooms[id].updated_at == now
                    &&& after.rooms[id].created_at == if tables.rooms.contains_key(id) {
                        tables.rooms[id].created_at
                    } else {
                        now
                    }
                }
            &&& forall|id: Seq<char>|
                #![trigger after.rooms.contains_key(id)]
                !allowed_rooms.contains(id) ==> after.rooms.contains_key(id)
                    == tables.rooms.contains_key(id) && (tables.rooms.contains_key(id)
                    ==> after.rooms[id] == tables.rooms[id])
        }),
{
    law_restart_requeues_claims(tables, default_room_id, allowed_rooms, now);
    let filled = tables.with_default_room(default_room_id);
    let after = tables.opened(default_room_id, allowed_rooms, now);
    assert forall|id: Seq<char>| #[trigger] allowed_rooms.contains(id) implies {
        &&& after.rooms.contains_key(id)
        &&& after.rooms[id].enabled
        &&& after.rooms[id].project_slug is None
        &&& after.rooms[id].updated_at == now
        &&& after.rooms[id].created_at == if tables.rooms.contains_key(id) {
            tables.rooms[id].created_at
        } else {
            now
        }
    } by {
        lemma_bound_rooms(filled, allowed_rooms, now, id);
    }
}

} // verus!
