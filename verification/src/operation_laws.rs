//! What each operation of the queue does, field by field.

use vstd::prelude::*;

use crate::encoding::base64_text;
use crate::model::{
    count_state, find_event, find_sequence, first_eligible, is_eligible, lemma_find_event,
    lemma_find_sequence, lemma_first_eligible, lemma_project_room, ChangeRecord, EventView,
    ImageView, InboundRecord, NewEvent, OutboundRecord, ProactiveRecord, RoomRecord, Tables,
};
use crate::records::{EventKind, EventState, StoreError};
use crate::text::precedes;
use crate::text_laws::{has_ink, law_blank_means_all_white};

verus! {

/// True when an event of this id stands in the queue.
pub open spec fn stands_in_queue(tables: Tables, event_id: Seq<char>) -> bool {
    exists|i: int| 0 <= i < tables.inbound.len() && (#[trigger] tables.inbound[i]).event_id
        == event_id
}

/// True for a claim that has lasted two hours.
pub open spec fn is_abandoned(row: InboundRecord, now: i64) -> bool {
    row.state == EventState::Claimed && row.claimed_at is Some && row.claimed_at->0 + 7200 <= now
}

/// True for an event of the room asked for, if one is.
pub open spec fn in_scope(row: InboundRecord, scope: Option<Seq<char>>) -> bool {
    scope is None || scope == Some(row.room_id)
}

/// True for an event that a claim may hand out: it waits, or its claim was abandoned.
pub open spec fn may_be_claimed(row: InboundRecord, scope: Option<Seq<char>>, now: i64) -> bool {
    (row.state == EventState::Queued || is_abandoned(row, now)) && in_scope(row, scope)
}

/// The row as it waits.
pub open spec fn waiting(row: InboundRecord) -> InboundRecord {
    InboundRecord {
        sequence: row.sequence,
        event_id: row.event_id,
        room_id: row.room_id,
        body: row.body,
        kind: row.kind,
        state: EventState::Queued,
        received_at: row.received_at,
        claimed_at: None,
        outbound_event_id: row.outbound_event_id,
        image_mime: row.image_mime,
        image_data: row.image_data,
    }
}

/// The row as it is worked on since `now`.
pub open spec fn in_hand(row: InboundRecord, now: i64) -> InboundRecord {
    InboundRecord {
        sequence: row.sequence,
        event_id: row.event_id,
        room_id: row.room_id,
        body: row.body,
        kind: row.kind,
        state: EventState::Claimed,
        received_at: row.received_at,
        claimed_at: Some(now),
        outbound_event_id: row.outbound_event_id,
        image_mime: row.image_mime,
        image_data: row.image_data,
    }
}

/// The row as it is answered.
pub open spec fn closed_with(row: InboundRecord, matrix_event_id: Seq<char>) -> InboundRecord {
    InboundRecord {
        sequence: row.sequence,
        event_id: row.event_id,
        room_id: row.room_id,
        body: row.body,
        kind: row.kind,
        state: EventState::Completed,
        received_at: row.received_at,
        claimed_at: None,
        outbound_event_id: Some(matrix_event_id),
        image_mime: None,
        image_data: None,
    }
}

/// True when the two differ in their inbound rows at most.
pub open spec fn only_inbound(a: Tables, b: Tables) -> bool {
    a.outbound == b.outbound && a.rooms == b.rooms && a.proactive == b.proactive
}

// ---------------------------------------------------------------------------
// Taking in
// ---------------------------------------------------------------------------

/// True for an event that can be queued at all.
pub open spec fn is_proper(event: NewEvent) -> bool {
    &&& event.event_id.len() > 0
    &&& event.room_id.len() > 0
    &&& has_ink(event.body)
    &&& event.kind == EventKind::Image <==> event.image_mime is Some && event.image_data is Some
}

/// Taking an event in: an improper one is refused; one of a room that is not bound and enabled,
/// or that is known, is dropped; any other is added behind the rest, just as it is, under the
/// next number.
pub proof fn law_taking_in_adds_the_event(tables: Tables, event: NewEvent, now: i64)
    ensures
        ({
            let (after, result) = tables.enqueue(event, now);
            let enabled = tables.rooms.contains_key(event.room_id)
                && tables.rooms[event.room_id].enabled;
            let known = stands_in_queue(tables, event.event_id);
            let n = tables.inbound.len() as int;
            let full = n > 0 && tables.inbound[n - 1].sequence == i64::MAX;
            &&& result == Err::<bool, StoreError>(StoreError::InvalidEvent) <==> !is_proper(event)
            &&& result == Ok::<bool, StoreError>(false) <==> is_proper(event) && (!enabled || known)
            &&& result == Err::<bool, StoreError>(StoreError::SequenceExhausted) <==> is_proper(
                event,
            ) && enabled && !known && full
            &&& result == Ok::<bool, StoreError>(true) <==> is_proper(event) && enabled && !known
                && !full
            &&& result != Ok::<bool, StoreError>(true) ==> after == tables
            &&& result == Ok::<bool, StoreError>(true) ==> {
                &&& only_inbound(tables, after)
                &&& after.inbound.len() == n + 1
                &&& forall|i: int| 0 <= i < n ==> #[trigger] after.inbound[i] == tables.inbound[i]
                &&& after.inbound[n].sequence == if n == 0 {
                    1
                } else {
                    tables.inbound[n - 1].sequence + 1
                }
                &&& after.inbound[n].event_id == event.event_id
                &&& after.inbound[n].room_id == event.room_id
                &&& after.inbound[n].body == event.body
                &&& after.inbound[n].kind == event.kind
                &&& after.inbound[n].state == EventState::Queued
                &&& after.inbound[n].received_at == now
                &&& after.inbound[n].claimed_at is None
                &&& after.inbound[n].outbound_event_id is None
                &&& after.inbound[n].image_mime == event.image_mime
                &&& after.inbound[n].image_data == event.image_data
            }
        }),
{
    law_blank_means_all_white(event.body);
    lemma_find_event(tables.inbound, event.event_id, 0);
    let known = stands_in_queue(tables, event.event_id);
    assert(known == tables.contains_event(event.event_id)) by {
        match find_event(tables.inbound, event.event_id, 0) {
            Some(i) => {
                assert(tables.inbound[i].event_id == event.event_id);
            },
            None => {},
        }
    }
}

/// Events without an image are text or voice, by name, and are taken in just as they are.
pub proof fn law_plain_events_are_text_or_voice(
    tables: Tables,
    event_id: Seq<char>,
    room_id: Seq<char>,
    body: Seq<char>,
    kind: Seq<char>,
    now: i64,
)
    ensures
        ({
            let plain = |kind: EventKind|
                NewEvent { event_id, room_id, body, kind, image_mime: None, image_data: None };
            tables.enqueue_plain(event_id, room_id, body, kind, now) == if kind == "text"@ {
                tables.enqueue(plain(EventKind::Text), now)
            } else if kind == "voice"@ {
                tables.enqueue(plain(EventKind::Voice), now)
            } else {
                (tables, Err(StoreError::InvalidKind))
            }
        }),
{
}

/// Events with an image carry its media type and every byte of it.
pub proof fn law_image_events_carry_the_image(
    tables: Tables,
    event_id: Seq<char>,
    room_id: Seq<char>,
    body: Seq<char>,
    media_type: Seq<char>,
    data: Seq<u8>,
    now: i64,
)
    ensures
        tables.enqueue_image(event_id, room_id, body, media_type, data, now) == if data.len() == 0
            || media_type.len() == 0 {
            (tables, Err(StoreError::InvalidImage))
        } else {
            tables.enqueue(
                NewEvent {
                    event_id,
                    room_id,
                    body,
                    kind: EventKind::Image,
                    image_mime: Some(media_type),
                    image_data: Some(data),
                },
                now,
            )
        },
{
}

// ---------------------------------------------------------------------------
// Claiming and releasing
// ---------------------------------------------------------------------------

/// What a claim hands out of a row: all that came with the event.
pub open spec fn as_handed_out(row: InboundRecord) -> EventView {
    EventView {
        event_id: row.event_id,
        room_id: row.room_id,
        body: row.body,
        kind: match row.kind {
            EventKind::Text => "text"@,
            EventKind::Voice => "voice"@,
            EventKind::Image => "image"@,
        },
        image: if row.image_mime is Some && row.image_data is Some {
            Some(
                ImageView { media_type: row.image_mime->0, data: base64_text(row.image_data->0) },
            )
        } else {
            None
        },
    }
}

/// What becomes of a row that is not handed out: it waits again if its claim was abandoned.
pub open spec fn left_alone(row: InboundRecord, now: i64) -> InboundRecord {
    if is_abandoned(row, now) {
        waiting(row)
    } else {
        row
    }
}

/// True when row `k` is handed out: it is the first that may be, it is claimed from now on, and
/// the other rows are left alone.
pub open spec fn hands_out(
    tables: Tables,
    after: Tables,
    event: EventView,
    scope: Option<Seq<char>>,
    now: i64,
    k: int,
) -> bool {
    &&& 0 <= k < tables.inbound.len()
    &&& may_be_claimed(tables.inbound[k], scope, now)
    &&& forall|i: int| 0 <= i < k ==> !may_be_claimed(#[trigger] tables.inbound[i], scope, now)
    &&& event == as_handed_out(tables.inbound[k])
    &&& after.inbound[k] == in_hand(tables.inbound[k], now)
    &&& forall|i: int|
        0 <= i < tables.inbound.len() && i != k ==> #[trigger] after.inbound[i] == left_alone(
            tables.inbound[i],
            now,
        )
}

/// Claiming: the first event in scope that waits, or whose claim is two hours old, is handed out
/// with all that came with it, and is claimed from now on. Every other claim that is two hours old
/// goes back to the queue, and nothing else changes. Nothing is handed out only where no event in
/// scope waits.
pub proof fn law_claiming_takes_the_first(tables: Tables, scope: Option<Seq<char>>, now: i64)
    ensures
        only_inbound(tables, tables.claim(scope, now).0),
        tables.claim(scope, now).0.inbound.len() == tables.inbound.len(),
        tables.claim(scope, now).1 matches Some(event) ==> exists|k: int| #[trigger]
            hands_out(tables, tables.claim(scope, now).0, event, scope, now, k),
        tables.claim(scope, now).1 is None ==> forall|i: int|
            0 <= i < tables.inbound.len() ==> !may_be_claimed(
                #[trigger] tables.inbound[i],
                scope,
                now,
            ),
        tables.claim(scope, now).1 is None ==> forall|i: int|
            0 <= i < tables.inbound.len() ==> #[trigger] tables.claim(scope, now).0.inbound[i]
                == left_alone(tables.inbound[i], now),
{
    let rows = tables.reclaimed(now).inbound;
    lemma_first_eligible(rows, scope, 0);
    let after = tables.claim(scope, now).0;
    assert forall|i: int| 0 <= i < tables.inbound.len() implies #[trigger] rows[i] == left_alone(
        tables.inbound[i],
        now,
    ) by {}
    assert forall|i: int| 0 <= i < tables.inbound.len() implies is_eligible(rows[i], scope)
        == may_be_claimed(#[trigger] tables.inbound[i], scope, now) by {
        assert(rows[i] == left_alone(tables.inbound[i], now));
    }
    if let Some(k) = first_eligible(rows, scope, 0) {
        let event = tables.claim(scope, now).1->0;
        assert(rows[k] == left_alone(tables.inbound[k], now));
        assert(event == as_handed_out(tables.inbound[k]));
        assert(after.inbound[k] == in_hand(tables.inbound[k], now));
        assert forall|i: int|
            0 <= i < tables.inbound.len() && i != k implies #[trigger] after.inbound[i]
            == left_alone(tables.inbound[i], now) by {
            assert(after.inbound[i] == rows[i]);
        }
        assert(hands_out(tables, after, event, scope, now, k));
    }
}

/// Of two claims less than two hours apart, whatever their scopes, the second does not hand out
/// the event of the first: it is still being worked on.
pub proof fn law_work_in_hand_is_not_stolen(
    tables: Tables,
    first_scope: Option<Seq<char>>,
    second_scope: Option<Seq<char>>,
    first: i64,
    second: i64,
)
    requires
        tables.valid(),
        second - first < 7200,
        tables.claim(first_scope, first).1 is Some,
    ensures
        tables.claim(first_scope, first).0.claim(second_scope, second).1 matches Some(event)
            ==> event.event_id != tables.claim(first_scope, first).1->0.event_id,
{
    let middle = tables.claim(first_scope, first).0;
    let given = tables.claim(first_scope, first).1->0;
    law_claiming_takes_the_first(tables, first_scope, first);
    law_claiming_takes_the_first(middle, second_scope, second);
    let k = choose|k: int| #[trigger]
        hands_out(tables, middle, given, first_scope, first, k);
    let last = middle.claim(second_scope, second).0;
    if let Some(event) = middle.claim(second_scope, second).1 {
        let m = choose|m: int| #[trigger]
            hands_out(middle, last, event, second_scope, second, m);
        assert(m != k);
        assert(middle.inbound[m] == left_alone(tables.inbound[m], first));
        if m < k {
            assert(tables.inbound[m].event_id != tables.inbound[k].event_id);
        } else {
            assert(tables.inbound[k].event_id != tables.inbound[m].event_id);
        }
    }
}

/// A claim that has lasted two hours is taken back: the event can be claimed again.
pub proof fn law_abandoned_work_is_taken_back(
    tables: Tables,
    scope: Option<Seq<char>>,
    first: i64,
    second: i64,
)
    requires
        second - first >= 7200,
        tables.claim(scope, first).1 is Some,
    ensures
        tables.claim(scope, first).0.claim(scope, second).1 is Some,
{
    let middle = tables.claim(scope, first).0;
    let given = tables.claim(scope, first).1->0;
    law_claiming_takes_the_first(tables, scope, first);
    law_claiming_takes_the_first(middle, scope, second);
    let k = choose|k: int| #[trigger] hands_out(tables, middle, given, scope, first, k);
    assert(may_be_claimed(middle.inbound[k], scope, second));
}

/// Releasing: a claimed event waits again in its place; no other event changes, and an event that
/// is not claimed is left alone.
pub proof fn law_releasing_puts_back(tables: Tables, event_id: Seq<char>)
    requires
        tables.valid(),
    ensures
        ({
            let (after, changed) = tables.release(event_id);
            &&& only_inbound(tables, after)
            &&& after.inbound.len() == tables.inbound.len()
            &&& changed <==> exists|i: int|
                0 <= i < tables.inbound.len() && (#[trigger] tables.inbound[i]).event_id == event_id
                    && tables.inbound[i].state == EventState::Claimed
            &&& forall|i: int|
                #![trigger after.inbound[i]]
                0 <= i < tables.inbound.len() ==> after.inbound[i] == if tables.inbound[i].event_id
                    == event_id && tables.inbound[i].state == EventState::Claimed {
                    waiting(tables.inbound[i])
                } else {
                    tables.inbound[i]
                }
        }),
{
    lemma_find_event(tables.inbound, event_id, 0);
    lemma_found_once(tables, event_id);
}

/// In a valid queue an event stands once.
proof fn lemma_found_once(tables: Tables, event_id: Seq<char>)
    requires
        tables.valid(),
    ensures
        forall|i: int|
            0 <= i < tables.inbound.len() && (#[trigger] tables.inbound[i]).event_id == event_id
                ==> find_event(tables.inbound, event_id, 0) == Some(i),
{
    lemma_find_event(tables.inbound, event_id, 0);
    assert forall|i: int|
        0 <= i < tables.inbound.len() && (#[trigger] tables.inbound[i]).event_id
            == event_id implies find_event(tables.inbound, event_id, 0) == Some(i) by {
        match find_event(tables.inbound, event_id, 0) {
            Some(k) => {
                if k < i {
                    assert(tables.inbound[k].event_id != tables.inbound[i].event_id);
                } else if k > i {
                    assert(tables.inbound[i].event_id != tables.inbound[k].event_id);
                }
            },
            None => {},
        }
    }
}

// ---------------------------------------------------------------------------
// Answers
// ---------------------------------------------------------------------------

/// Completing: an event that is claimed, or completed already, is closed with the answer, and the
/// answer is recorded under its key, unless the key is taken. Nothing else changes. Any other
/// event is refused, and then nothing changes.
pub proof fn law_completing_closes_and_records(
    tables: Tables,
    event_id: Seq<char>,
    idempotency_key: Seq<char>,
    matrix_event_id: Seq<char>,
    now: i64,
)
    requires
        tables.valid(),
    ensures
        ({
            let (after, result) = tables.complete(event_id, idempotency_key, matrix_event_id, now);
            let open = exists|i: int|
                0 <= i < tables.inbound.len() && (#[trigger] tables.inbound[i]).event_id == event_id
                    && tables.inbound[i].state != EventState::Queued;
            &&& result == if open {
                Ok::<(), StoreError>(())
            } else {
                Err(StoreError::NotClaimed)
            }
            &&& !open ==> after == tables
            &&& after.rooms == tables.rooms && after.proactive == tables.proactive
            &&& after.inbound.len() == tables.inbound.len()
            &&& open ==> {
                &&& forall|i: int|
                    #![trigger after.inbound[i]]
                    0 <= i < tables.inbound.len() ==> after.inbound[i]
                        == if tables.inbound[i].event_id == event_id {
                        closed_with(tables.inbound[i], matrix_event_id)
                    } else {
                        tables.inbound[i]
                    }
                &&& forall|key: Seq<char>|
                    #![trigger after.outbound.contains_key(key)]
                    after.outbound.contains_key(key) <==> tables.outbound.contains_key(key) || key
                        == idempotency_key
                &&& forall|key: Seq<char>|
                    #![trigger after.outbound[key]]
                    tables.outbound.contains_key(key) ==> after.outbound[key]
                        == tables.outbound[key]
                &&& !tables.outbound.contains_key(idempotency_key)
                    ==> after.outbound[idempotency_key] == (OutboundRecord {
                    source_event_id: event_id,
                    matrix_event_id,
                    sent_at: now,
                })
            }
        }),
{
    lemma_find_event(tables.inbound, event_id, 0);
    lemma_found_once(tables, event_id);
    match find_event(tables.inbound, event_id, 0) {
        Some(i) => {
            assert(tables.inbound[i].event_id == event_id);
        },
        None => {},
    }
}

/// A message that answers no event is recorded under its key, unless the key is taken.
pub proof fn law_proactive_messages_are_recorded(
    tables: Tables,
    idempotency_key: Seq<char>,
    matrix_event_id: Seq<char>,
    now: i64,
)
    ensures
        ({
            let after = tables.complete_proactive(idempotency_key, matrix_event_id, now);
            &&& after.inbound == tables.inbound && after.rooms == tables.rooms && after.outbound
                == tables.outbound
            &&& after.proactive.contains_key(idempotency_key)
            &&& after.proactive[idempotency_key] == if tables.proactive.contains_key(
                idempotency_key,
            ) {
                tables.proactive[idempotency_key]
            } else {
                ProactiveRecord { matrix_event_id, sent_at: now }
            }
            &&& forall|key: Seq<char>|
                #![trigger after.proactive.contains_key(key)]
                key != idempotency_key ==> after.proactive.contains_key(key)
                    == tables.proactive.contains_key(key) && (tables.proactive.contains_key(key)
                    ==> after.proactive[key] == tables.proactive[key])
        }),
{
}

// ---------------------------------------------------------------------------
// Rooms
// ---------------------------------------------------------------------------

/// Binding: the room is enabled under the given project, or under none, and keeps the time at
/// which it was first bound. It is refused only where another room has the project.
pub proof fn law_binding_enables_the_room(
    tables: Tables,
    room_id: Seq<char>,
    project_slug: Option<Seq<char>>,
    now: i64,
)
    ensures
        ({
            let (after, result) = tables.bind_room(room_id, project_slug, now);
            let taken = project_slug is Some && exists|other: Seq<char>|
                other != room_id && #[trigger] tables.rooms.contains_key(other)
                    && tables.rooms[other].project_slug == project_slug;
            &&& result == if taken {
                Err::<(), StoreError>(StoreError::SlugTaken)
            } else {
                Ok(())
            }
            &&& taken ==> after == tables
            &&& after.inbound == tables.inbound && after.outbound == tables.outbound
                && after.proactive == tables.proactive
            &&& !taken ==> {
                &&& after.rooms.contains_key(room_id)
                &&& after.rooms[room_id] == (RoomRecord {
                    enabled: true,
                    project_slug,
                    created_at: if tables.rooms.contains_key(room_id) {
                        tables.rooms[room_id].created_at
                    } else {
                        now
                    },
                    updated_at: now,
                })
                &&& forall|other: Seq<char>|
                    #![trigger after.rooms.contains_key(other)]
                    other != room_id ==> after.rooms.contains_key(other)
                        == tables.rooms.contains_key(other) && (tables.rooms.contains_key(other)
                        ==> after.rooms[other] == tables.rooms[other])
            }
        }),
{
    if tables.slug_taken(room_id, project_slug) {
        let other = choose|other: Seq<char>|
            #![trigger tables.rooms[other]]
            tables.rooms.contains_key(other) && other != room_id
                && tables.rooms[other].project_slug == project_slug;
        assert(tables.rooms.contains_key(other));
    }
    if exists|other: Seq<char>|
        other != room_id && #[trigger] tables.rooms.contains_key(other)
            && tables.rooms[other].project_slug == project_slug {
        let other = choose|other: Seq<char>|
            other != room_id && #[trigger] tables.rooms.contains_key(other)
                && tables.rooms[other].project_slug == project_slug;
        assert(tables.rooms[other].project_slug == project_slug);
    }
}

/// Unbinding takes out that room and no other.
pub proof fn law_unbinding_takes_out_one_room(tables: Tables, room_id: Seq<char>)
    ensures
        ({
            let after = tables.unbind_room(room_id);
            &&& after.inbound == tables.inbound && after.outbound == tables.outbound
                && after.proactive == tables.proactive
            &&& !after.rooms.contains_key(room_id)
            &&& forall|other: Seq<char>|
                #![trigger after.rooms.contains_key(other)]
                other != room_id ==> after.rooms.contains_key(other) == tables.rooms.contains_key(
                    other,
                ) && (tables.rooms.contains_key(other) ==> after.rooms[other]
                    == tables.rooms[other])
        }),
{
}

/// The room of a project is the enabled room that is bound to it; there is none only where no
/// enabled room is.
pub proof fn law_projects_find_their_room(tables: Tables, project_slug: Seq<char>)
    requires
        tables.valid(),
    ensures
        match tables.project_room(project_slug) {
            Some(room_id) => tables.rooms.contains_key(room_id) && tables.rooms[room_id].enabled
                && tables.rooms[room_id].project_slug == Some(project_slug),
            None => forall|room_id: Seq<char>| #[trigger]
                tables.rooms.contains_key(room_id) && tables.rooms[room_id].enabled
                    ==> tables.rooms[room_id].project_slug != Some(project_slug),
        },
        forall|room_id: Seq<char>| #[trigger]
            tables.rooms.contains_key(room_id) && tables.rooms[room_id].enabled
                && tables.rooms[room_id].project_slug == Some(project_slug) ==> tables.project_room(
                project_slug,
            ) == Some(room_id),
        forall|room_id: Seq<char>| #[trigger]
            tables.room_enabled(room_id) <==> tables.rooms.contains_key(room_id)
                && tables.rooms[room_id].enabled,
{
    assert forall|room_id: Seq<char>| #[trigger]
        tables.rooms.contains_key(room_id) && tables.rooms[room_id].enabled
            && tables.rooms[room_id].project_slug == Some(
            project_slug,
        ) implies tables.project_room(project_slug) == Some(room_id) by {
        assert(tables.has_project(room_id, project_slug));
        lemma_project_room(tables, room_id, project_slug);
    }
    if let Some(room_id) = tables.project_room(project_slug) {
        assert(tables.has_project(room_id, project_slug));
    }
}

/// A list of project rooms names each enabled room that has a project, with its project, once.
pub proof fn law_project_lists_are_complete(
    tables: Tables,
    list: Seq<(Seq<char>, Seq<char>)>,
    project_slug: Seq<char>,
    room_id: Seq<char>,
)
    requires
        tables.is_project_list(list),
    ensures
        list.contains((project_slug, room_id)) <==> tables.rooms.contains_key(room_id)
            && tables.rooms[room_id].enabled && tables.rooms[room_id].project_slug == Some(
            project_slug,
        ),
        forall|i: int, j: int|
            0 <= i < j < list.len() ==> precedes(
                (#[trigger] list[i]).0,
                (#[trigger] list[j]).0,
            ),
{
    assert(list.contains((project_slug, room_id)) <==> tables.has_project(room_id, project_slug));
}

// ---------------------------------------------------------------------------
// Counting
// ---------------------------------------------------------------------------

/// The test for rows in a state.
pub open spec fn in_state(state: EventState) -> spec_fn(InboundRecord) -> bool {
    |row: InboundRecord| row.state == state
}

/// The count of a state is the number of the rows in it.
pub proof fn law_counts_are_numbers_of_rows(rows: Seq<InboundRecord>, state: EventState)
    ensures
        count_state(rows, state) == rows.filter(in_state(state)).len(),
    decreases rows.len(),
{
    reveal(Seq::filter);
    if rows.len() > 0 {
        law_counts_are_numbers_of_rows(rows.drop_last(), state);
    }
}

// ---------------------------------------------------------------------------
// Rows on disk
// ---------------------------------------------------------------------------

/// Writing a row replaces the one of its number, or adds it; no other row changes.
pub proof fn law_written_rows_stand(tables: Tables, row: InboundRecord)
    requires
        tables.valid(),
    ensures
        ({
            let after = tables.apply(ChangeRecord::Inbound(row));
            let there = exists|i: int|
                0 <= i < tables.inbound.len() && (#[trigger] tables.inbound[i]).sequence
                    == row.sequence;
            &&& only_inbound(tables, after)
            &&& after.inbound.len() == tables.inbound.len() + if there {
                0int
            } else {
                1int
            }
            &&& forall|i: int|
                #![trigger after.inbound[i]]
                0 <= i < tables.inbound.len() ==> after.inbound[i] == if tables.inbound[i].sequence
                    == row.sequence {
                    row
                } else {
                    tables.inbound[i]
                }
            &&& !there ==> after.inbound[tables.inbound.len() as int] == row
        }),
{
    lemma_find_sequence(tables.inbound, row.sequence, 0);
    match find_sequence(tables.inbound, row.sequence, 0) {
        Some(k) => {
            assert(tables.inbound[k].sequence == row.sequence);
            assert forall|i: int|
                0 <= i < tables.inbound.len() && i != k implies (#[trigger] tables.inbound[i]).sequence
                != row.sequence by {
                if i < k {
                    assert(tables.inbound[i].sequence < tables.inbound[k].sequence);
                } else {
                    assert(tables.inbound[k].sequence < tables.inbound[i].sequence);
                }
            }
        },
        None => {},
    }
}

/// Rows of the other tables are written and removed under their keys.
pub proof fn law_written_keys_stand(
    tables: Tables,
    key: Seq<char>,
    answer: OutboundRecord,
    room: RoomRecord,
    message: ProactiveRecord,
)
    ensures
        tables.apply(ChangeRecord::Outbound(key, answer)) == (Tables {
            inbound: tables.inbound,
            outbound: tables.outbound.insert(key, answer),
            rooms: tables.rooms,
            proactive: tables.proactive,
        }),
        tables.apply(ChangeRecord::Room(key, room)) == (Tables {
            inbound: tables.inbound,
            outbound: tables.outbound,
            rooms: tables.rooms.insert(key, room),
            proactive: tables.proactive,
        }),
        tables.apply(ChangeRecord::RoomRemoved(key)) == (Tables {
            inbound: tables.inbound,
            outbound: tables.outbound,
            rooms: tables.rooms.remove(key),
            proactive: tables.proactive,
        }),
        tables.apply(ChangeRecord::Proactive(key, message)) == (Tables {
            inbound: tables.inbound,
            outbound: tables.outbound,
            rooms: tables.rooms,
            proactive: tables.proactive.insert(key, message),
        }),
        tables.replay(Seq::empty()) == tables,
        forall|changes: Seq<ChangeRecord>, change: ChangeRecord|
            tables.replay(#[trigger] changes.push(change)) == tables.replay(changes).apply(change),
{
    assert forall|changes: Seq<ChangeRecord>, change: ChangeRecord|
        tables.replay(#[trigger] changes.push(change)) == tables.replay(changes).apply(change) by {
        assert(changes.push(change).drop_last() =~= changes);
    }
}

} // verus!
