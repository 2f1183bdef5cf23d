//! What holds of the queue as a whole.

use vstd::prelude::*;

use crate::encoding::base64_text;
use crate::model::{
    completed_row, count_state, event_ok, event_view, find_event, first_eligible, is_eligible,
    is_stale, kind_label, lemma_find_event, lemma_first_eligible, lemma_project_room, requeued_row,
    EventView, ImageView, InboundRecord, NewEvent, Tables, STALE_CLAIM_SECONDS,
};
use crate::records::{EventState, StoreError};

verus! {

/// True when no claim is old enough to be taken back.
pub open spec fn no_stale_claim(tables: Tables, now: i64) -> bool {
    forall|i: int| 0 <= i < tables.inbound.len() ==> !is_stale(#[trigger] tables.inbound[i], now)
}

/// True when no queued event holds a claim time.
pub open spec fn queued_rows_idle(tables: Tables) -> bool {
    forall|i: int|
        0 <= i < tables.inbound.len() && (#[trigger] tables.inbound[i]).state == EventState::Queued
            ==> tables.inbound[i].claimed_at is None
}

/// The position of the event that a claim hands out.
pub open spec fn claimed_position(tables: Tables, scope: Option<Seq<char>>, now: i64) -> Option<
    int,
> {
    first_eligible(tables.reclaimed(now).inbound, scope, 0)
}

/// What never changes of an event once it is queued.
pub open spec fn same_event(a: InboundRecord, b: InboundRecord) -> bool {
    a.sequence == b.sequence && a.event_id == b.event_id && a.room_id == b.room_id && a.body
        == b.body && a.kind == b.kind && a.received_at == b.received_at
}

/// True when every event of `before` stands in `after`, at the same place and unaltered.
pub open spec fn keeps_events(before: Tables, after: Tables) -> bool {
    before.inbound.len() <= after.inbound.len() && forall|i: int|
        0 <= i < before.inbound.len() ==> same_event(
            #[trigger] before.inbound[i],
            after.inbound[i],
        )
}

/// True when every answer of `before` stands in `after` unaltered.
pub open spec fn keeps_answers(before: Tables, after: Tables) -> bool {
    forall|key: Seq<char>|
        #![trigger before.outbound[key]]
        before.outbound.contains_key(key) ==> after.outbound.contains_key(key)
            && after.outbound[key] == before.outbound[key]
}

/// The position that a row in a valid queue has is the one its event id is found at.
proof fn lemma_position(tables: Tables, i: int)
    requires
        tables.valid(),
        0 <= i < tables.inbound.len(),
    ensures
        tables.position(tables.inbound[i].event_id) == Some(i),
{
    let id = tables.inbound[i].event_id;
    lemma_find_event(tables.inbound, id, 0);
    let found = find_event(tables.inbound, id, 0);
    assert(found is Some) by {
        if found is None {
            assert(tables.inbound[i].event_id != id);
        }
    }
    let k = found->0;
    if k < i {
        assert(tables.inbound[k].event_id != tables.inbound[i].event_id);
    } else if k > i {
        assert(tables.inbound[i].event_id != tables.inbound[k].event_id);
    }
}

/// Event ids decide where events are found.
proof fn lemma_same_position(a: Tables, b: Tables, event_id: Seq<char>, from: int)
    requires
        0 <= from,
        a.inbound.len() == b.inbound.len(),
        forall|i: int|
            0 <= i < a.inbound.len() ==> (#[trigger] a.inbound[i]).event_id == b.inbound[i].event_id,
    ensures
        find_event(a.inbound, event_id, from) == find_event(b.inbound, event_id, from),
    decreases a.inbound.len() - from,
{
    if from < a.inbound.len() {
        assert(a.inbound[from].event_id == b.inbound[from].event_id);
        lemma_same_position(a, b, event_id, from + 1);
    }
}

/// Taking stale claims back keeps the queue valid.
proof fn lemma_reclaimed_valid(tables: Tables, now: i64)
    requires
        tables.valid(),
    ensures
        tables.reclaimed(now).valid(),
{
    let after = tables.reclaimed(now);
    assert forall|i: int, j: int| 0 <= i < j < after.inbound.len() implies (
    #[trigger] after.inbound[i]).sequence < (#[trigger] after.inbound[j]).sequence
        && after.inbound[i].event_id != after.inbound[j].event_id by {
        assert(tables.inbound[i].sequence < tables.inbound[j].sequence);
        assert(tables.inbound[i].event_id != tables.inbound[j].event_id);
    }
    assert forall|i: int|
        0 <= i < after.inbound.len() && (#[trigger] after.inbound[i]).image_data is Some implies
        crate::encoding::encodable(after.inbound[i].image_data->0.len()) by {
        assert(tables.inbound[i].image_data == after.inbound[i].image_data);
    }
}

// ---------------------------------------------------------------------------
// Order
// ---------------------------------------------------------------------------

/// First in, first out: a claim hands out the earliest event in scope that waits, or whose claim
/// was abandoned. It hands out nothing only when none waits.
pub proof fn law_claim_takes_the_first_in_scope(tables: Tables, scope: Option<Seq<char>>, now: i64)
    ensures
        match tables.claim(scope, now).1 {
            Some(event) => exists|i: int|
                0 <= i < tables.inbound.len() && event == event_view(#[trigger] tables.inbound[i])
                    && waits_in_scope(tables.inbound[i], scope, now) && forall|j: int|
                    0 <= j < i ==> !waits_in_scope(#[trigger] tables.inbound[j], scope, now),
            None => forall|j: int|
                0 <= j < tables.inbound.len() ==> !waits_in_scope(
                    #[trigger] tables.inbound[j],
                    scope,
                    now,
                ),
        },
{
    let rows = tables.reclaimed(now).inbound;
    lemma_first_eligible(rows, scope, 0);
    assert forall|j: int| 0 <= j < tables.inbound.len() implies waits_in_scope(
        #[trigger] tables.inbound[j],
        scope,
        now,
    ) == is_eligible(rows[j], scope) by {
        assert(rows[j].room_id == tables.inbound[j].room_id);
    }
    match first_eligible(rows, scope, 0) {
        Some(i) => {
            assert(event_view(rows[i]) == event_view(tables.inbound[i]));
            assert(waits_in_scope(tables.inbound[i], scope, now));
        },
        None => {},
    }
}

/// True for an event in scope that waits, or whose claim was abandoned.
pub open spec fn waits_in_scope(row: InboundRecord, scope: Option<Seq<char>>, now: i64) -> bool {
    (row.state == EventState::Queued || is_stale(row, now)) && (scope matches Some(room_id)
        ==> row.room_id == room_id)
}

/// Of two claims in a row with the same scope, the second hands out a later event, as long as no
/// claim is abandoned in between.
pub proof fn law_claims_ascend(tables: Tables, scope: Option<Seq<char>>, first: i64, second: i64)
    requires
        no_stale_claim(tables.claim(scope, first).0, second),
        claimed_position(tables, scope, first) is Some,
        claimed_position(tables.claim(scope, first).0, scope, second) is Some,
    ensures
        claimed_position(tables, scope, first)->0 < claimed_position(
            tables.claim(scope, first).0,
            scope,
            second,
        )->0,
{
    let rows = tables.reclaimed(first).inbound;
    lemma_first_eligible(rows, scope, 0);
    let i = first_eligible(rows, scope, 0)->0;
    let after = tables.claim(scope, first).0;
    let again = after.reclaimed(second).inbound;
    lemma_first_eligible(again, scope, 0);
    let j = first_eligible(again, scope, 0)->0;
    assert(!is_stale(after.inbound[j], second));
    assert(again[j] == after.inbound[j]);
    if j < i {
        assert(!is_eligible(rows[j], scope));
        assert(after.inbound[j] == rows[j]);
    } else if j == i {
        assert(after.inbound[i].state == EventState::Claimed);
    }
}

/// Events stand in the queue in the order in which they came.
pub proof fn law_events_queue_in_order(
    tables: Tables,
    first: NewEvent,
    second: NewEvent,
    earlier: i64,
    later: i64,
)
    requires
        tables.valid(),
        tables.enqueue(first, earlier).1 == Ok::<bool, StoreError>(true),
        tables.enqueue(first, earlier).0.enqueue(second, later).1 == Ok::<bool, StoreError>(true),
    ensures
        ({
            let after = tables.enqueue(first, earlier).0.enqueue(second, later).0;
            let a = after.position(first.event_id);
            let b = after.position(second.event_id);
            a is Some && b is Some && a->0 < b->0
        }),
{
    let middle = tables.enqueue(first, earlier).0;
    let after = middle.enqueue(second, later).0;
    let n = tables.inbound.len() as int;
    lemma_find_event(tables.inbound, first.event_id, 0);
    lemma_find_event(middle.inbound, second.event_id, 0);
    lemma_find_event(after.inbound, first.event_id, 0);
    lemma_find_event(after.inbound, second.event_id, 0);
    assert(after.inbound[n].event_id == first.event_id);
    assert(after.inbound[n + 1].event_id == second.event_id);
    let a = find_event(after.inbound, first.event_id, 0);
    let b = find_event(after.inbound, second.event_id, 0);
    assert(a is Some) by {
        if a is None {
            assert(after.inbound[n].event_id != first.event_id);
        }
    }
    assert(b is Some) by {
        if b is None {
            assert(after.inbound[n + 1].event_id != second.event_id);
        }
    }
    let k = b->0;
    if k <= n {
        assert(middle.inbound[k].event_id == after.inbound[k].event_id);
        assert(middle.inbound[k].event_id != second.event_id);
    }
    if a->0 > n {
        assert(after.inbound[n].event_id != first.event_id);
    }
}

// ---------------------------------------------------------------------------
// Deduplication
// ---------------------------------------------------------------------------

/// An event that is in the queue already is not queued again, whatever it says the second time.
pub proof fn law_known_event_is_not_queued_again(tables: Tables, event: NewEvent, now: i64)
    requires
        tables.contains_event(event.event_id),
    ensures
        tables.enqueue(event, now).0 == tables,
        tables.enqueue(event, now).1 != Ok::<bool, StoreError>(true),
        event_ok(event) ==> tables.enqueue(event, now).1 == Ok::<bool, StoreError>(false),
{
}

/// A queued event is known from then on.
pub proof fn law_queued_event_is_known(tables: Tables, event: NewEvent, now: i64)
    requires
        tables.enqueue(event, now).1 == Ok::<bool, StoreError>(true),
    ensures
        tables.enqueue(event, now).0.contains_event(event.event_id),
{
    let after = tables.enqueue(event, now).0;
    lemma_find_event(after.inbound, event.event_id, 0);
    assert(after.inbound.last().event_id == event.event_id);
    if find_event(after.inbound, event.event_id, 0) is None {
        assert(after.inbound[tables.inbound.len() as int].event_id != event.event_id);
    }
}

/// An event is handed out as it came, in its turn: when no other event in scope waits, the next
/// claim gives it.
pub proof fn law_event_is_handed_out_as_it_came(
    tables: Tables,
    event: NewEvent,
    scope: Option<Seq<char>>,
    now: i64,
    later: i64,
)
    requires
        tables.enqueue(event, now).1 == Ok::<bool, StoreError>(true),
        scope matches Some(room_id) ==> room_id == event.room_id,
        forall|i: int|
            0 <= i < tables.inbound.len() ==> !waits_in_scope(
                #[trigger] tables.inbound[i],
                scope,
                later,
            ),
    ensures
        tables.enqueue(event, now).0.claim(scope, later).1 == Some(
            EventView {
                event_id: event.event_id,
                room_id: event.room_id,
                body: event.body,
                kind: kind_label(event.kind),
                image: match (event.image_mime, event.image_data) {
                    (Some(media_type), Some(data)) => Some(
                        ImageView { media_type, data: base64_text(data) },
                    ),
                    _ => None,
                },
            },
        ),
{
    let after = tables.enqueue(event, now).0;
    let n = tables.inbound.len() as int;
    let rows = after.reclaimed(later).inbound;
    lemma_first_eligible(rows, scope, 0);
    assert(after.inbound[n] == tables.new_row(event, now));
    assert(rows[n] == after.inbound[n]);
    assert(is_eligible(rows[n], scope));
    let found = first_eligible(rows, scope, 0);
    assert(found is Some) by {
        if found is None {
            assert(!is_eligible(rows[n], scope));
        }
    }
    let i = found->0;
    if i < n {
        assert(after.inbound[i] == tables.inbound[i]);
        assert(!waits_in_scope(tables.inbound[i], scope, later));
    } else if i > n {
        assert(!is_eligible(rows[n], scope));
    }
}

/// An event from a room that is not bound is dropped.
pub proof fn law_unbound_room_queues_nothing(tables: Tables, event: NewEvent, now: i64)
    requires
        !tables.room_enabled(event.room_id),
    ensures
        tables.enqueue(event, now).0 == tables,
        tables.enqueue(event, now).1 != Ok::<bool, StoreError>(true),
{
}

// ---------------------------------------------------------------------------
// Claims
// ---------------------------------------------------------------------------

/// A claim that is released leaves the queue as it was, except that abandoned claims are back in
/// it, and that the released event holds no claim time. A queued event holds none anyway, unless
/// the stored rows had it otherwise from the start.
pub proof fn law_release_undoes_claim(tables: Tables, scope: Option<Seq<char>>, now: i64)
    requires
        tables.valid(),
        tables.claim(scope, now).1 is Some,
    ensures
        ({
            let ready = tables.reclaimed(now);
            let i = claimed_position(tables, scope, now)->0;
            tables.claim(scope, now).0.release(tables.claim(scope, now).1->0.event_id) == (
                ready.with_inbound(ready.inbound.update(i, requeued_row(ready.inbound[i]))),
                true,
            )
        }),
        queued_rows_idle(tables) ==> tables.claim(scope, now).0.release(
            tables.claim(scope, now).1->0.event_id,
        ) == (tables.reclaimed(now), true),
        no_stale_claim(tables, now) ==> tables.reclaimed(now) == tables,
{
    let ready = tables.reclaimed(now);
    lemma_reclaimed_valid(tables, now);
    lemma_first_eligible(ready.inbound, scope, 0);
    let i = first_eligible(ready.inbound, scope, 0)->0;
    let after = tables.claim(scope, now).0;
    let id = ready.inbound[i].event_id;
    lemma_position(ready, i);
    lemma_same_position(after, ready, id, 0);
    assert(tables.inbound[i].state == EventState::Queued || is_stale(tables.inbound[i], now));
    let back = requeued_row(ready.inbound[i]);
    assert(requeued_row(after.inbound[i]) == back);
    assert(after.inbound.update(i, back) =~= ready.inbound.update(i, back));
    if queued_rows_idle(tables) {
        assert(back == ready.inbound[i]);
        assert(ready.inbound.update(i, back) =~= ready.inbound);
    }
    if no_stale_claim(tables, now) {
        assert(ready.inbound =~= tables.inbound);
    }
}

/// A claim with a scope hands out an event of that room, and leaves the events of other rooms as
/// they are unless their claims were abandoned.
pub proof fn law_scoped_claim_keeps_to_its_room(tables: Tables, room_id: Seq<char>, now: i64)
    ensures
        tables.claim(Some(room_id), now).1 matches Some(event) ==> event.room_id == room_id,
        forall|i: int|
            0 <= i < tables.inbound.len() && (#[trigger] tables.inbound[i]).room_id != room_id
                && !is_stale(tables.inbound[i], now) ==> tables.claim(
                Some(room_id),
                now,
            ).0.inbound[i] == tables.inbound[i],
{
    let ready = tables.reclaimed(now);
    lemma_first_eligible(ready.inbound, Some(room_id), 0);
    assert forall|i: int|
        0 <= i < tables.inbound.len() && (#[trigger] tables.inbound[i]).room_id != room_id
            && !is_stale(tables.inbound[i], now) implies tables.claim(
        Some(room_id),
        now,
    ).0.inbound[i] == tables.inbound[i] by {
        assert(ready.inbound[i] == tables.inbound[i]);
    }
}

/// An event is in one pair of hands at a time: what a claim hands out was waiting, or its claim
/// was at least two hours old; and it is claimed afterwards.
pub proof fn law_claim_steals_nothing(tables: Tables, scope: Option<Seq<char>>, now: i64)
    requires
        tables.claim(scope, now).1 is Some,
    ensures
        ({
            let i = claimed_position(tables, scope, now)->0;
            &&& 0 <= i < tables.inbound.len()
            &&& tables.claim(scope, now).1->0.event_id == tables.inbound[i].event_id
            &&& tables.inbound[i].state == EventState::Queued || (tables.inbound[i].state
                == EventState::Claimed && tables.inbound[i].claimed_at->0 + STALE_CLAIM_SECONDS
                <= now)
            &&& tables.claim(scope, now).0.inbound[i].state == EventState::Claimed
        }),
{
    lemma_first_eligible(tables.reclaimed(now).inbound, scope, 0);
}

/// A completed event stays completed through every claim and release, and is not handed out.
pub proof fn law_completed_event_stays_completed(
    tables: Tables,
    i: int,
    scope: Option<Seq<char>>,
    now: i64,
    released: Seq<char>,
)
    requires
        tables.valid(),
        0 <= i < tables.inbound.len(),
        tables.inbound[i].state == EventState::Completed,
    ensures
        tables.claim(scope, now).0.inbound[i] == tables.inbound[i],
        tables.claim(scope, now).1 matches Some(event) ==> event.event_id
            != tables.inbound[i].event_id,
        tables.release(released).0.inbound[i] == tables.inbound[i],
{
    let ready = tables.reclaimed(now);
    lemma_reclaimed_valid(tables, now);
    lemma_first_eligible(ready.inbound, scope, 0);
    assert(ready.inbound[i] == tables.inbound[i]);
    match first_eligible(ready.inbound, scope, 0) {
        Some(k) => {
            assert(is_eligible(ready.inbound[k], scope));
            assert(k != i);
            if k < i {
                assert(ready.inbound[k].event_id != ready.inbound[i].event_id);
            } else {
                assert(ready.inbound[i].event_id != ready.inbound[k].event_id);
            }
        },
        None => {},
    }
    lemma_find_event(tables.inbound, released, 0);
}

/// Queued events hold no claim time, through every operation.
pub proof fn law_queued_events_hold_no_claim(
    tables: Tables,
    event: NewEvent,
    scope: Option<Seq<char>>,
    event_id: Seq<char>,
    idempotency_key: Seq<char>,
    matrix_event_id: Seq<char>,
    room_id: Seq<char>,
    project_slug: Option<Seq<char>>,
    allowed_rooms: Seq<Seq<char>>,
    now: i64,
)
    requires
        queued_rows_idle(tables),
    ensures
        queued_rows_idle(tables.enqueue(event, now).0),
        queued_rows_idle(tables.claim(scope, now).0),
        queued_rows_idle(tables.release(event_id).0),
        queued_rows_idle(tables.complete(event_id, idempotency_key, matrix_event_id, now).0),
        queued_rows_idle(tables.complete_proactive(idempotency_key, matrix_event_id, now)),
        queued_rows_idle(tables.bind_room(room_id, project_slug, now).0),
        queued_rows_idle(tables.unbind_room(room_id)),
        queued_rows_idle(tables.requeued()),
        queued_rows_idle(tables.opened(room_id, allowed_rooms, now)),
{
    let ready = tables.reclaimed(now);
    lemma_first_eligible(ready.inbound, scope, 0);
    lemma_find_event(tables.inbound, event_id, 0);
    let queued = tables.enqueue(event, now).0;
    assert forall|i: int|
        0 <= i < queued.inbound.len() && (#[trigger] queued.inbound[i]).state
            == EventState::Queued implies queued.inbound[i].claimed_at is None by {
        if i < tables.inbound.len() {
            assert(queued.inbound[i] == tables.inbound[i]);
        }
    }
    let claimed = tables.claim(scope, now).0;
    assert forall|i: int|
        0 <= i < claimed.inbound.len() && (#[trigger] claimed.inbound[i]).state
            == EventState::Queued implies claimed.inbound[i].claimed_at is None by {
        assert(claimed.inbound[i] == ready.inbound[i]);
        assert(tables.inbound[i].state == EventState::Queued ==> tables.inbound[i].claimed_at
            is None);
    }
    let released = tables.release(event_id).0;
    assert forall|i: int|
        0 <= i < released.inbound.len() && (#[trigger] released.inbound[i]).state
            == EventState::Queued implies released.inbound[i].claimed_at is None by {
        assert(tables.inbound[i].state == EventState::Queued ==> tables.inbound[i].claimed_at
            is None);
    }
    let completed = tables.complete(event_id, idempotency_key, matrix_event_id, now).0;
    assert forall|i: int|
        0 <= i < completed.inbound.len() && (#[trigger] completed.inbound[i]).state
            == EventState::Queued implies completed.inbound[i].claimed_at is None by {
        assert(tables.inbound[i].state == EventState::Queued ==> tables.inbound[i].claimed_at
            is None);
    }
    let opened = tables.opened(room_id, allowed_rooms, now);
    lemma_bind_all_keeps_rows(tables.with_default_room(room_id), allowed_rooms, now);
    assert forall|i: int|
        0 <= i < opened.inbound.len() && (#[trigger] opened.inbound[i]).state
            == EventState::Queued implies opened.inbound[i].claimed_at is None by {
        assert(tables.inbound[i].state == EventState::Queued ==> tables.inbound[i].claimed_at
            is None);
    }
    let requeued = tables.requeued();
    assert forall|i: int|
        0 <= i < requeued.inbound.len() && (#[trigger] requeued.inbound[i]).state
            == EventState::Queued implies requeued.inbound[i].claimed_at is None by {
        assert(tables.inbound[i].state == EventState::Queued ==> tables.inbound[i].claimed_at
            is None);
    }
}

// ---------------------------------------------------------------------------
// Answers
// ---------------------------------------------------------------------------

/// What is recorded under an idempotency key is read back: the id of the first answer, however
/// often the key is used.
pub proof fn law_first_answer_is_read_back(
    tables: Tables,
    event_id: Seq<char>,
    idempotency_key: Seq<char>,
    matrix_event_id: Seq<char>,
    now: i64,
)
    requires
        tables.complete(event_id, idempotency_key, matrix_event_id, now).1 == Ok::<(), StoreError>(
            (),
        ),
    ensures
        ({
            let after = tables.complete(event_id, idempotency_key, matrix_event_id, now).0;
            &&& after.outbound.contains_key(idempotency_key)
            &&& after.outbound[idempotency_key].matrix_event_id
                == if tables.outbound.contains_key(idempotency_key) {
                tables.outbound[idempotency_key].matrix_event_id
            } else {
                matrix_event_id
            }
            &&& keeps_answers(tables, after)
        }),
{
}

/// Completing a second time changes nothing.
pub proof fn law_completing_twice_is_completing_once(
    tables: Tables,
    event_id: Seq<char>,
    idempotency_key: Seq<char>,
    matrix_event_id: Seq<char>,
    now: i64,
    later: i64,
)
    requires
        tables.valid(),
        tables.complete(event_id, idempotency_key, matrix_event_id, now).1 == Ok::<(), StoreError>(
            (),
        ),
    ensures
        ({
            let after = tables.complete(event_id, idempotency_key, matrix_event_id, now).0;
            after.complete(event_id, idempotency_key, matrix_event_id, later) == (
                after,
                Ok::<(), StoreError>(()),
            )
        }),
{
    let after = tables.complete(event_id, idempotency_key, matrix_event_id, now).0;
    lemma_find_event(tables.inbound, event_id, 0);
    let i = tables.position(event_id)->0;
    lemma_same_position(after, tables, event_id, 0);
    assert(completed_row(after.inbound[i], matrix_event_id) == after.inbound[i]);
    assert(after.inbound.update(i, after.inbound[i]) =~= after.inbound);
}

/// An event that was not claimed cannot be completed, and trying changes nothing.
pub proof fn law_unclaimed_event_is_not_completed(
    tables: Tables,
    event_id: Seq<char>,
    idempotency_key: Seq<char>,
    matrix_event_id: Seq<char>,
    now: i64,
)
    requires
        tables.position(event_id) matches Some(i) ==> tables.inbound[i].state
            == EventState::Queued,
    ensures
        tables.complete(event_id, idempotency_key, matrix_event_id, now) == (
            tables,
            Err::<(), StoreError>(StoreError::NotClaimed),
        ),
{
}

/// A message that answers no event is recorded once, under its first id.
pub proof fn law_proactive_message_is_recorded_once(
    tables: Tables,
    idempotency_key: Seq<char>,
    first: Seq<char>,
    second: Seq<char>,
    now: i64,
    later: i64,
)
    requires
        !tables.proactive.contains_key(idempotency_key),
    ensures
        ({
            let after = tables.complete_proactive(idempotency_key, first, now);
            &&& after.proactive[idempotency_key].matrix_event_id == first
            &&& after.complete_proactive(idempotency_key, second, later) == after
        }),
{
}

// ---------------------------------------------------------------------------
// Images
// ---------------------------------------------------------------------------

/// A claimed image is handed out in base64 under its media type.
pub proof fn law_claimed_image_is_handed_out(tables: Tables, scope: Option<Seq<char>>, now: i64)
    requires
        tables.claim(scope, now).1 is Some,
    ensures
        ({
            let row = tables.inbound[claimed_position(tables, scope, now)->0];
            row.image_mime is Some && row.image_data is Some ==> tables.claim(
                scope,
                now,
            ).1->0.image == Some(
                ImageView { media_type: row.image_mime->0, data: base64_text(row.image_data->0) },
            )
        }),
{
    lemma_first_eligible(tables.reclaimed(now).inbound, scope, 0);
}

/// Nothing of an image is left once its event is completed; until then it is kept.
pub proof fn law_image_is_kept_until_completion(
    tables: Tables,
    scope: Option<Seq<char>>,
    event_id: Seq<char>,
    idempotency_key: Seq<char>,
    matrix_event_id: Seq<char>,
    now: i64,
)
    ensures
        forall|i: int|
            0 <= i < tables.inbound.len() ==> (#[trigger] tables.claim(
                scope,
                now,
            ).0.inbound[i]).image_data == tables.inbound[i].image_data,
        forall|i: int|
            0 <= i < tables.inbound.len() ==> (#[trigger] tables.release(
                event_id,
            ).0.inbound[i]).image_data == tables.inbound[i].image_data,
        forall|i: int|
            0 <= i < tables.inbound.len() ==> (#[trigger] tables.requeued().inbound[i]).image_data
                == tables.inbound[i].image_data,
        tables.complete(event_id, idempotency_key, matrix_event_id, now).1 == Ok::<(), StoreError>(
            (),
        ) ==> ({
            let row = tables.complete(
                event_id,
                idempotency_key,
                matrix_event_id,
                now,
            ).0.inbound[tables.position(event_id)->0];
            row.image_mime is None && row.image_data is None
        }),
{
    lemma_first_eligible(tables.reclaimed(now).inbound, scope, 0);
    lemma_find_event(tables.inbound, event_id, 0);
}

// ---------------------------------------------------------------------------
// Nothing is lost
// ---------------------------------------------------------------------------

/// No operation loses or alters an event, nor an answer.
pub proof fn law_nothing_is_lost(
    tables: Tables,
    event: NewEvent,
    scope: Option<Seq<char>>,
    event_id: Seq<char>,
    idempotency_key: Seq<char>,
    matrix_event_id: Seq<char>,
    room_id: Seq<char>,
    project_slug: Option<Seq<char>>,
    now: i64,
)
    ensures
        ({
            let queued = tables.enqueue(event, now).0;
            let claimed = tables.claim(scope, now).0;
            let released = tables.release(event_id).0;
            let completed = tables.complete(event_id, idempotency_key, matrix_event_id, now).0;
            let sent = tables.complete_proactive(idempotency_key, matrix_event_id, now);
            let bound = tables.bind_room(room_id, project_slug, now).0;
            let unbound = tables.unbind_room(room_id);
            &&& keeps_events(tables, queued) && keeps_answers(tables, queued)
            &&& keeps_events(tables, claimed) && keeps_answers(tables, claimed)
            &&& keeps_events(tables, released) && keeps_answers(tables, released)
            &&& keeps_events(tables, completed) && keeps_answers(tables, completed)
            &&& keeps_events(tables, sent) && keeps_answers(tables, sent)
            &&& keeps_events(tables, bound) && keeps_answers(tables, bound)
            &&& keeps_events(tables, unbound) && keeps_answers(tables, unbound)
        }),
{
    lemma_first_eligible(tables.reclaimed(now).inbound, scope, 0);
    lemma_find_event(tables.inbound, event_id, 0);
}

// ---------------------------------------------------------------------------
// Restart
// ---------------------------------------------------------------------------

proof fn lemma_bind_all_keeps_rows(tables: Tables, rooms: Seq<Seq<char>>, now: i64)
    ensures
        tables.bind_all(rooms, now).inbound == tables.inbound,
        tables.bind_all(rooms, now).outbound == tables.outbound,
        tables.bind_all(rooms, now).proactive == tables.proactive,
    decreases rooms.len(),
{
    if rooms.len() > 0 {
        lemma_bind_all_keeps_rows(tables, rooms.drop_last(), now);
    }
}

proof fn lemma_bind_all_enables(tables: Tables, rooms: Seq<Seq<char>>, now: i64, room_id: Seq<char>)
    requires
        rooms.contains(room_id) || tables.room_enabled(room_id),
    ensures
        tables.bind_all(rooms, now).room_enabled(room_id),
    decreases rooms.len(),
{
    if rooms.len() > 0 {
        if rooms.last() != room_id {
            if rooms.contains(room_id) {
                let k = choose|k: int| 0 <= k < rooms.len() && rooms[k] == room_id;
                assert(rooms.drop_last()[k] == room_id);
            }
            lemma_bind_all_enables(tables, rooms.drop_last(), now, room_id);
        }
    }
}

pub proof fn lemma_bind_all_keeps_others(
    tables: Tables,
    rooms: Seq<Seq<char>>,
    now: i64,
    room_id: Seq<char>,
)
    requires
        !rooms.contains(room_id),
    ensures
        tables.bind_all(rooms, now).rooms.contains_key(room_id) == tables.rooms.contains_key(
            room_id,
        ),
        tables.rooms.contains_key(room_id) ==> tables.bind_all(rooms, now).rooms[room_id]
            == tables.rooms[room_id],
    decreases rooms.len(),
{
    if rooms.len() > 0 {
        let rest = rooms.drop_last();
        assert(rooms.last() != room_id) by {
            assert(rooms.contains(rooms[rooms.len() - 1]));
        }
        if rest.contains(room_id) {
            let k = choose|k: int| 0 <= k < rest.len() && rest[k] == room_id;
            assert(rooms[k] == room_id);
        }
        lemma_bind_all_keeps_others(tables, rest, now, room_id);
    }
}

/// What a restart makes of a row: one without a room gets the default room, one that was claimed
/// waits again, and everything else of it stays.
pub open spec fn restarted_row(row: InboundRecord, default_room_id: Seq<char>) -> InboundRecord {
    let housed = InboundRecord {
        room_id: if row.room_id.len() == 0 {
            default_room_id
        } else {
            row.room_id
        },
        ..row
    };
    if row.state == EventState::Claimed {
        requeued_row(housed)
    } else {
        housed
    }
}

/// After a restart nothing is claimed, every event that was claimed waits again in its place,
/// nothing else of an event has changed, answers are kept, the allowed rooms are bound, and other
/// rooms are as they were.
pub proof fn law_restart_requeues_claims(
    tables: Tables,
    default_room_id: Seq<char>,
    allowed_rooms: Seq<Seq<char>>,
    now: i64,
)
    ensures
        ({
            let after = tables.opened(default_room_id, allowed_rooms, now);
            &&& after.inbound.len() == tables.inbound.len()
            &&& forall|i: int|
                #![trigger after.inbound[i]]
                0 <= i < after.inbound.len() ==> after.inbound[i] == restarted_row(
                    tables.inbound[i],
                    default_room_id,
                ) && after.inbound[i].state != EventState::Claimed
            &&& after.outbound == tables.outbound
            &&& after.proactive == tables.proactive
            &&& forall|id: Seq<char>| #[trigger]
                allowed_rooms.contains(id) ==> after.room_enabled(id)
            &&& forall|id: Seq<char>|
                #![trigger after.rooms.contains_key(id)]
                !allowed_rooms.contains(id) ==> after.rooms.contains_key(id)
                    == tables.rooms.contains_key(id) && (tables.rooms.contains_key(id)
                    ==> after.rooms[id] == tables.rooms[id])
        }),
{
    let filled = tables.with_default_room(default_room_id);
    lemma_bind_all_keeps_rows(filled, allowed_rooms, now);
    let after = tables.opened(default_room_id, allowed_rooms, now);
    assert forall|id: Seq<char>| #[trigger] allowed_rooms.contains(id) implies after.room_enabled(
        id,
    ) by {
        lemma_bind_all_enables(filled, allowed_rooms, now, id);
    }
    assert forall|id: Seq<char>|
        #![trigger after.rooms.contains_key(id)]
        !allowed_rooms.contains(id) implies after.rooms.contains_key(id)
        == tables.rooms.contains_key(id) && (tables.rooms.contains_key(id) ==> after.rooms[id]
        == tables.rooms[id]) by {
        lemma_bind_all_keeps_others(filled, allowed_rooms, now, id);
    }
}

proof fn lemma_no_claimed_rows(rows: Seq<InboundRecord>)
    requires
        forall|i: int| 0 <= i < rows.len() ==> (#[trigger] rows[i]).state != EventState::Claimed,
    ensures
        count_state(rows, EventState::Claimed) == 0,
    decreases rows.len(),
{
    if rows.len() > 0 {
        assert(rows[rows.len() - 1].state != EventState::Claimed);
        let rest = rows.drop_last();
        assert forall|i: int| 0 <= i < rest.len() implies (#[trigger] rest[i]).state
            != EventState::Claimed by {
            assert(rest[i] == rows[i]);
        }
        lemma_no_claimed_rows(rest);
    }
}

/// After a restart the number of claimed events is zero.
pub proof fn law_restart_counts_no_claims(
    tables: Tables,
    default_room_id: Seq<char>,
    allowed_rooms: Seq<Seq<char>>,
    now: i64,
)
    ensures
        count_state(
            tables.opened(default_room_id, allowed_rooms, now).inbound,
            EventState::Claimed,
        ) == 0,
{
    let after = tables.opened(default_room_id, allowed_rooms, now);
    law_restart_requeues_claims(tables, default_room_id, allowed_rooms, now);
    assert forall|i: int| 0 <= i < after.inbound.len() implies (#[trigger] after.inbound[i]).state
        != EventState::Claimed by {}
    lemma_no_claimed_rows(after.inbound);
}

// ---------------------------------------------------------------------------
// Project rooms
// ---------------------------------------------------------------------------

/// A bound room is found by its project, and is gone once it is unbound.
pub proof fn law_bound_project_is_found(
    tables: Tables,
    room_id: Seq<char>,
    project_slug: Seq<char>,
    now: i64,
)
    requires
        tables.valid(),
        tables.bind_room(room_id, Some(project_slug), now).1 == Ok::<(), StoreError>(()),
    ensures
        ({
            let after = tables.bind_room(room_id, Some(project_slug), now).0;
            &&& after.valid()
            &&& after.project_room(project_slug) == Some(room_id)
            &&& after.room_enabled(room_id)
            &&& after.unbind_room(room_id).project_room(project_slug) is None
            &&& !after.unbind_room(room_id).room_enabled(room_id)
        }),
{
    let after = tables.bind_room(room_id, Some(project_slug), now).0;
    assert forall|a: Seq<char>, b: Seq<char>|
        #![trigger after.rooms[a], after.rooms[b]]
        after.rooms.contains_key(a) && after.rooms.contains_key(b) && a != b
            && after.rooms[a].project_slug is Some implies after.rooms[a].project_slug
        != after.rooms[b].project_slug by {
        if a == room_id {
            assert(tables.rooms[b] == after.rooms[b]);
            assert(!tables.slug_taken(room_id, Some(project_slug)));
        } else if b == room_id {
            assert(tables.rooms[a] == after.rooms[a]);
            assert(!tables.slug_taken(room_id, Some(project_slug)));
        } else {
            assert(tables.rooms[a] == after.rooms[a]);
            assert(tables.rooms[b] == after.rooms[b]);
        }
    }
    assert(after.has_project(room_id, project_slug));
    lemma_project_room(after, room_id, project_slug);
    let gone = after.unbind_room(room_id);
    if exists|id: Seq<char>| gone.has_project(id, project_slug) {
        let id = choose|id: Seq<char>| gone.has_project(id, project_slug);
        assert(after.rooms[id] == gone.rooms[id]);
        assert(after.has_project(id, project_slug));
        lemma_project_room(after, id, project_slug);
    }
}

} // verus!
