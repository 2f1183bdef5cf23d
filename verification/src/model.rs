//! What the queue holds and what each operation does to it, as mathematics.
//!
//! `Tables` is the state of the store. The functions on it say, for every operation, the state
//! afterwards and the answer given.

use vstd::prelude::*;

use crate::encoding::{base64_text, encodable};
use crate::records::{EventKind, EventState, StoreError};
use crate::text::{is_blank, lemma_precedes_irreflexive, lemma_precedes_transitive, precedes};

verus! {

/// Seconds after which a claim counts as abandoned.
pub const STALE_CLAIM_SECONDS: i64 = 7_200;

/// An inbound event as the queue holds it.
#[verifier::ext_equal]
pub struct InboundRecord {
    pub sequence: i64,
    pub event_id: Seq<char>,
    pub room_id: Seq<char>,
    pub body: Seq<char>,
    pub kind: EventKind,
    pub state: EventState,
    pub received_at: i64,
    pub claimed_at: Option<i64>,
    pub outbound_event_id: Option<Seq<char>>,
    pub image_mime: Option<Seq<char>>,
    pub image_data: Option<Seq<u8>>,
}

/// What is kept of an answer, under its idempotency key.
#[verifier::ext_equal]
pub struct OutboundRecord {
    pub source_event_id: Seq<char>,
    pub matrix_event_id: Seq<char>,
    pub sent_at: i64,
}

/// What is kept of a room, under its id.
#[verifier::ext_equal]
pub struct RoomRecord {
    pub enabled: bool,
    pub project_slug: Option<Seq<char>>,
    pub created_at: i64,
    pub updated_at: i64,
}

/// What is kept of a message that answers no event, under its idempotency key.
#[verifier::ext_equal]
pub struct ProactiveRecord {
    pub matrix_event_id: Seq<char>,
    pub sent_at: i64,
}

/// The image of an event as it is handed out.
#[verifier::ext_equal]
pub struct ImageView {
    pub media_type: Seq<char>,
    pub data: Seq<char>,
}

/// An event as it is handed out.
#[verifier::ext_equal]
pub struct EventView {
    pub event_id: Seq<char>,
    pub room_id: Seq<char>,
    pub body: Seq<char>,
    pub kind: Seq<char>,
    pub image: Option<ImageView>,
}

/// An event on its way into the queue.
#[verifier::ext_equal]
pub struct NewEvent {
    pub event_id: Seq<char>,
    pub room_id: Seq<char>,
    pub body: Seq<char>,
    pub kind: EventKind,
    pub image_mime: Option<Seq<char>>,
    pub image_data: Option<Seq<u8>>,
}

/// One row written or removed.
pub enum ChangeRecord {
    Inbound(InboundRecord),
    Outbound(Seq<char>, OutboundRecord),
    Room(Seq<char>, RoomRecord),
    RoomRemoved(Seq<char>),
    Proactive(Seq<char>, ProactiveRecord),
}

/// The state of the store. Inbound events stand in the order of their sequence numbers.
#[verifier::ext_equal]
pub struct Tables {
    pub inbound: Seq<InboundRecord>,
    pub outbound: Map<Seq<char>, OutboundRecord>,
    pub rooms: Map<Seq<char>, RoomRecord>,
    pub proactive: Map<Seq<char>, ProactiveRecord>,
}

// ---------------------------------------------------------------------------
// Rows
// ---------------------------------------------------------------------------

/// The name of a kind of event.
pub open spec fn kind_label(kind: EventKind) -> Seq<char> {
    match kind {
        EventKind::Text => "text"@,
        EventKind::Voice => "voice"@,
        EventKind::Image => "image"@,
    }
}

/// The kind that a name stands for, of the kinds without an image.
pub open spec fn plain_kind(label: Seq<char>) -> Option<EventKind> {
    if label == "text"@ {
        Some(EventKind::Text)
    } else if label == "voice"@ {
        Some(EventKind::Voice)
    } else {
        None
    }
}

/// An event as it is handed out: its image, where it has type and bytes, as base64 text.
pub open spec fn event_view(row: InboundRecord) -> EventView {
    EventView {
        event_id: row.event_id,
        room_id: row.room_id,
        body: row.body,
        kind: kind_label(row.kind),
        image: match (row.image_mime, row.image_data) {
            (Some(media_type), Some(data)) => Some(ImageView { media_type, data: base64_text(data) }),
            _ => None,
        },
    }
}

/// The row back in the queue.
pub open spec fn requeued_row(row: InboundRecord) -> InboundRecord {
    InboundRecord { state: EventState::Queued, claimed_at: None, ..row }
}

/// The row claimed at time `now`.
pub open spec fn claimed_row(row: InboundRecord, now: i64) -> InboundRecord {
    InboundRecord { state: EventState::Claimed, claimed_at: Some(now), ..row }
}

/// The row answered by `matrix_event_id`, its image erased.
pub open spec fn completed_row(row: InboundRecord, matrix_event_id: Seq<char>) -> InboundRecord {
    InboundRecord {
        state: EventState::Completed,
        claimed_at: None,
        outbound_event_id: Some(matrix_event_id),
        image_mime: None,
        image_data: None,
        ..row
    }
}

/// True for a claim that is old enough to be taken back.
pub open spec fn is_stale(row: InboundRecord, now: i64) -> bool {
    row.state == EventState::Claimed && row.claimed_at is Some && row.claimed_at->0 <= now
        - STALE_CLAIM_SECONDS
}

/// True for a queued event in scope: of any room, or of the one room given.
pub open spec fn is_eligible(row: InboundRecord, scope: Option<Seq<char>>) -> bool {
    row.state == EventState::Queued && (scope matches Some(room_id) ==> row.room_id == room_id)
}

/// The first eligible event at or after position `from`.
pub open spec fn first_eligible(
    rows: Seq<InboundRecord>,
    scope: Option<Seq<char>>,
    from: int,
) -> Option<int>
    decreases rows.len() - from,
{
    if from >= rows.len() {
        None
    } else if is_eligible(rows[from], scope) {
        Some(from)
    } else {
        first_eligible(rows, scope, from + 1)
    }
}

/// The position at or after `from` of the event with the given id.
pub open spec fn find_event(rows: Seq<InboundRecord>, event_id: Seq<char>, from: int) -> Option<int>
    decreases rows.len() - from,
{
    if from >= rows.len() {
        None
    } else if rows[from].event_id == event_id {
        Some(from)
    } else {
        find_event(rows, event_id, from + 1)
    }
}

/// The position at or after `from` of the row with the given sequence number.
pub open spec fn find_sequence(rows: Seq<InboundRecord>, sequence: i64, from: int) -> Option<int>
    decreases rows.len() - from,
{
    if from >= rows.len() {
        None
    } else if rows[from].sequence == sequence {
        Some(from)
    } else {
        find_sequence(rows, sequence, from + 1)
    }
}

/// The number of rows in the given state.
pub open spec fn count_state(rows: Seq<InboundRecord>, state: EventState) -> nat
    decreases rows.len(),
{
    if rows.len() == 0 {
        0
    } else {
        count_state(rows.drop_last(), state) + if rows.last().state == state {
            1nat
        } else {
            0nat
        }
    }
}

/// What an event must have to be taken into the queue.
pub open spec fn event_ok(event: NewEvent) -> bool {
    &&& event.event_id.len() > 0
    &&& event.room_id.len() > 0
    &&& !is_blank(event.body)
    &&& (event.kind == EventKind::Image) == (event.image_mime is Some && event.image_data is Some)
}

/// True when the projects in a list of projects and rooms ascend.
pub open spec fn projects_ascend(pairs: Seq<(Seq<char>, Seq<char>)>) -> bool {
    forall|i: int, j: int|
        0 <= i < j < pairs.len() ==> precedes((#[trigger] pairs[i]).0, (#[trigger] pairs[j]).0)
}

// ---------------------------------------------------------------------------
// The operations
// ---------------------------------------------------------------------------

impl Tables {
    /// What always holds: sequence numbers ascend, no event occurs twice, no project has two
    /// rooms, and every image can be encoded.
    pub open spec fn valid(self) -> bool {
        &&& forall|i: int, j: int|
            0 <= i < j < self.inbound.len() ==> (#[trigger] self.inbound[i]).sequence < (
            #[trigger] self.inbound[j]).sequence
        &&& forall|i: int, j: int|
            0 <= i < j < self.inbound.len() ==> (#[trigger] self.inbound[i]).event_id != (
            #[trigger] self.inbound[j]).event_id
        &&& forall|i: int|
            0 <= i < self.inbound.len() ==> (#[trigger] self.inbound[i]).image_data is Some
                ==> encodable(self.inbound[i].image_data->0.len())
        &&& forall|a: Seq<char>, b: Seq<char>|
            #![trigger self.rooms[a], self.rooms[b]]
            self.rooms.contains_key(a) && self.rooms.contains_key(b) && a != b
                && self.rooms[a].project_slug is Some ==> self.rooms[a].project_slug
                != self.rooms[b].project_slug
    }

    /// The same tables with other inbound rows.
    pub open spec fn with_inbound(self, inbound: Seq<InboundRecord>) -> Tables {
        Tables { inbound, ..self }
    }

    /// True when the room is bound and enabled.
    pub open spec fn room_enabled(self, room_id: Seq<char>) -> bool {
        self.rooms.contains_key(room_id) && self.rooms[room_id].enabled
    }

    /// The position of an event.
    pub open spec fn position(self, event_id: Seq<char>) -> Option<int> {
        find_event(self.inbound, event_id, 0)
    }

    /// True when the event was ever taken in.
    pub open spec fn contains_event(self, event_id: Seq<char>) -> bool {
        self.position(event_id) is Some
    }

    /// The sequence number that the next event gets.
    pub open spec fn next_sequence(self) -> int {
        if self.inbound.len() == 0 {
            1
        } else {
            self.inbound.last().sequence + 1
        }
    }

    /// The row of an event taken in at time `now`.
    pub open spec fn new_row(self, event: NewEvent, now: i64) -> InboundRecord {
        InboundRecord {
            sequence: self.next_sequence() as i64,
            event_id: event.event_id,
            room_id: event.room_id,
            body: event.body,
            kind: event.kind,
            state: EventState::Queued,
            received_at: now,
            claimed_at: None,
            outbound_event_id: None,
            image_mime: event.image_mime,
            image_data: event.image_data,
        }
    }

    /// Taking an event in: refused when malformed, dropped when its room is not enabled or when
    /// it is known already, else queued last.
    pub open spec fn enqueue(self, event: NewEvent, now: i64) -> (Tables, Result<bool, StoreError>) {
        if !event_ok(event) {
            (self, Err(StoreError::InvalidEvent))
        } else if !self.room_enabled(event.room_id) || self.contains_event(event.event_id) {
            (self, Ok(false))
        } else if self.next_sequence() > i64::MAX {
            (self, Err(StoreError::SequenceExhausted))
        } else {
            (self.with_inbound(self.inbound.push(self.new_row(event, now))), Ok(true))
        }
    }

    /// Taking in an event without an image, of the kind named.
    pub open spec fn enqueue_plain(
        self,
        event_id: Seq<char>,
        room_id: Seq<char>,
        body: Seq<char>,
        kind: Seq<char>,
        now: i64,
    ) -> (Tables, Result<bool, StoreError>) {
        match plain_kind(kind) {
            Some(kind) => self.enqueue(
                NewEvent { event_id, room_id, body, kind, image_mime: None, image_data: None },
                now,
            ),
            None => (self, Err(StoreError::InvalidKind)),
        }
    }

    /// Taking in an event with an image.
    pub open spec fn enqueue_image(
        self,
        event_id: Seq<char>,
        room_id: Seq<char>,
        body: Seq<char>,
        media_type: Seq<char>,
        data: Seq<u8>,
        now: i64,
    ) -> (Tables, Result<bool, StoreError>) {
        if data.len() == 0 || media_type.len() == 0 {
            (self, Err(StoreError::InvalidImage))
        } else {
            self.enqueue(
                NewEvent {
                    event_id,
                    room_id,
                    body,
                    kind: EventKind::Image,
                    image_mime: Some(media_type),
                    image_data: Some(data),
                },
                now,
            )
        }
    }

    /// The tables with abandoned claims back in the queue.
    pub open spec fn reclaimed(self, now: i64) -> Tables {
        self.with_inbound(
            Seq::new(
                self.inbound.len(),
                |i: int|
                    if is_stale(self.inbound[i], now) {
                        requeued_row(self.inbound[i])
                    } else {
                        self.inbound[i]
                    },
            ),
        )
    }

    /// The tables with every claim back in the queue.
    pub open spec fn requeued(self) -> Tables {
        self.with_inbound(
            Seq::new(
                self.inbound.len(),
                |i: int|
                    if self.inbound[i].state == EventState::Claimed {
                        requeued_row(self.inbound[i])
                    } else {
                        self.inbound[i]
                    },
            ),
        )
    }

    /// Claiming: abandoned claims go back to the queue, then the first event in scope is claimed.
    pub open spec fn claim(self, scope: Option<Seq<char>>, now: i64) -> (Tables, Option<EventView>) {
        let tables = self.reclaimed(now);
        match first_eligible(tables.inbound, scope, 0) {
            Some(i) => (
                tables.with_inbound(
                    tables.inbound.update(i, claimed_row(tables.inbound[i], now)),
                ),
                Some(event_view(tables.inbound[i])),
            ),
            None => (tables, None),
        }
    }

    /// Releasing: a claimed event goes back to its place in the queue.
    pub open spec fn release(self, event_id: Seq<char>) -> (Tables, bool) {
        match self.position(event_id) {
            Some(i) if self.inbound[i].state == EventState::Claimed => (
                self.with_inbound(self.inbound.update(i, requeued_row(self.inbound[i]))),
                true,
            ),
            _ => (self, false),
        }
    }

    /// Completing: the answer is recorded under its key, unless the key is known already, and the
    /// event is closed. An event that is neither claimed nor closed is refused.
    pub open spec fn complete(
        self,
        source_event_id: Seq<char>,
        idempotency_key: Seq<char>,
        matrix_event_id: Seq<char>,
        now: i64,
    ) -> (Tables, Result<(), StoreError>) {
        match self.position(source_event_id) {
            Some(i) if self.inbound[i].state != EventState::Queued => (
                Tables {
                    inbound: self.inbound.update(i, completed_row(self.inbound[i], matrix_event_id)),
                    outbound: if self.outbound.contains_key(idempotency_key) {
                        self.outbound
                    } else {
                        self.outbound.insert(
                            idempotency_key,
                            OutboundRecord { source_event_id, matrix_event_id, sent_at: now },
                        )
                    },
                    ..self
                },
                Ok(()),
            ),
            _ => (self, Err(StoreError::NotClaimed)),
        }
    }

    /// Recording a message that answers no event, unless its key is known already.
    pub open spec fn complete_proactive(
        self,
        idempotency_key: Seq<char>,
        matrix_event_id: Seq<char>,
        now: i64,
    ) -> Tables {
        if self.proactive.contains_key(idempotency_key) {
            self
        } else {
            Tables {
                proactive: self.proactive.insert(
                    idempotency_key,
                    ProactiveRecord { matrix_event_id, sent_at: now },
                ),
                ..self
            }
        }
    }

    /// True when another room than `room_id` has the project.
    pub open spec fn slug_taken(self, room_id: Seq<char>, project_slug: Option<Seq<char>>) -> bool {
        project_slug is Some && exists|other: Seq<char>|
            #![trigger self.rooms[other]]
            self.rooms.contains_key(other) && other != room_id && self.rooms[other].project_slug
                == project_slug
    }

    /// Binding a room: it is enabled and gets the project, or none. A project that another room
    /// has is refused.
    pub open spec fn bind_room(
        self,
        room_id: Seq<char>,
        project_slug: Option<Seq<char>>,
        now: i64,
    ) -> (Tables, Result<(), StoreError>) {
        if self.slug_taken(room_id, project_slug) {
            (self, Err(StoreError::SlugTaken))
        } else {
            (
                Tables {
                    rooms: self.rooms.insert(
                        room_id,
                        RoomRecord {
                            enabled: true,
                            project_slug,
                            created_at: if self.rooms.contains_key(room_id) {
                                self.rooms[room_id].created_at
                            } else {
                                now
                            },
                            updated_at: now,
                        },
                    ),
                    ..self
                },
                Ok(()),
            )
        }
    }

    /// The rooms bound one after the other, without projects.
    pub open spec fn bind_all(self, room_ids: Seq<Seq<char>>, now: i64) -> Tables
        decreases room_ids.len(),
    {
        if room_ids.len() == 0 {
            self
        } else {
            self.bind_all(room_ids.drop_last(), now).bind_room(room_ids.last(), None, now).0
        }
    }

    /// Unbinding a room.
    pub open spec fn unbind_room(self, room_id: Seq<char>) -> Tables {
        Tables { rooms: self.rooms.remove(room_id), ..self }
    }

    /// True when the room is enabled and has the project.
    pub open spec fn has_project(self, room_id: Seq<char>, project_slug: Seq<char>) -> bool {
        self.room_enabled(room_id) && self.rooms[room_id].project_slug == Some(project_slug)
    }

    /// The enabled room that has the project.
    pub open spec fn project_room(self, project_slug: Seq<char>) -> Option<Seq<char>> {
        if exists|room_id: Seq<char>| self.has_project(room_id, project_slug) {
            Some(choose|room_id: Seq<char>| self.has_project(room_id, project_slug))
        } else {
            None
        }
    }

    /// True for the list of the enabled rooms that have a project, in ascending order of the
    /// projects.
    pub open spec fn is_project_list(self, list: Seq<(Seq<char>, Seq<char>)>) -> bool {
        projects_ascend(list) && forall|slug: Seq<char>, room_id: Seq<char>|
            #![trigger self.has_project(room_id, slug)]
            list.contains((slug, room_id)) <==> self.has_project(room_id, slug)
    }

    /// The enabled rooms that have a project, in ascending order of the projects.
    pub open spec fn project_list(self) -> Seq<(Seq<char>, Seq<char>)> {
        choose|list: Seq<(Seq<char>, Seq<char>)>| self.is_project_list(list)
    }

    /// The rows without a room get the default room.
    pub open spec fn with_default_room(self, default_room_id: Seq<char>) -> Tables {
        self.with_inbound(
            Seq::new(
                self.inbound.len(),
                |i: int|
                    if self.inbound[i].room_id.len() == 0 {
                        InboundRecord { room_id: default_room_id, ..self.inbound[i] }
                    } else {
                        self.inbound[i]
                    },
            ),
        )
    }

    /// Opening: rows without a room get the default room, the allowed rooms are bound, and every
    /// claim goes back to the queue.
    pub open spec fn opened(
        self,
        default_room_id: Seq<char>,
        allowed_rooms: Seq<Seq<char>>,
        now: i64,
    ) -> Tables {
        self.with_default_room(default_room_id).bind_all(allowed_rooms, now).requeued()
    }

    /// The tables after one row is written or removed.
    pub open spec fn apply(self, change: ChangeRecord) -> Tables {
        match change {
            ChangeRecord::Inbound(row) => match find_sequence(self.inbound, row.sequence, 0) {
                Some(i) => self.with_inbound(self.inbound.update(i, row)),
                None => self.with_inbound(self.inbound.push(row)),
            },
            ChangeRecord::Outbound(key, row) => Tables {
                outbound: self.outbound.insert(key, row),
                ..self
            },
            ChangeRecord::Room(key, row) => Tables { rooms: self.rooms.insert(key, row), ..self },
            ChangeRecord::RoomRemoved(key) => Tables { rooms: self.rooms.remove(key), ..self },
            ChangeRecord::Proactive(key, row) => Tables {
                proactive: self.proactive.insert(key, row),
                ..self
            },
        }
    }

    /// The tables after a list of changes, in order.
    pub open spec fn replay(self, changes: Seq<ChangeRecord>) -> Tables
        decreases changes.len(),
    {
        if changes.len() == 0 {
            self
        } else {
            self.replay(changes.drop_last()).apply(changes.last())
        }
    }
}

// ---------------------------------------------------------------------------
// What the searches find
// ---------------------------------------------------------------------------

/// What `first_eligible` finds.
pub proof fn lemma_first_eligible(rows: Seq<InboundRecord>, scope: Option<Seq<char>>, from: int)
    requires
        0 <= from,
    ensures
        match first_eligible(rows, scope, from) {
            Some(i) => from <= i < rows.len() && is_eligible(rows[i], scope) && forall|j: int|
                from <= j < i ==> !is_eligible(#[trigger] rows[j], scope),
            None => forall|j: int|
                from <= j < rows.len() ==> !is_eligible(#[trigger] rows[j], scope),
        },
    decreases rows.len() - from,
{
    if from < rows.len() && !is_eligible(rows[from], scope) {
        lemma_first_eligible(rows, scope, from + 1);
    }
}

/// What `find_event` finds.
pub proof fn lemma_find_event(rows: Seq<InboundRecord>, event_id: Seq<char>, from: int)
    requires
        0 <= from,
    ensures
        match find_event(rows, event_id, from) {
            Some(i) => from <= i < rows.len() && rows[i].event_id == event_id && forall|j: int|
                from <= j < i ==> (#[trigger] rows[j]).event_id != event_id,
            None => forall|j: int|
                from <= j < rows.len() ==> (#[trigger] rows[j]).event_id != event_id,
        },
    decreases rows.len() - from,
{
    if from < rows.len() && rows[from].event_id != event_id {
        lemma_find_event(rows, event_id, from + 1);
    }
}

/// What `find_sequence` finds.
pub proof fn lemma_find_sequence(rows: Seq<InboundRecord>, sequence: i64, from: int)
    requires
        0 <= from,
    ensures
        match find_sequence(rows, sequence, from) {
            Some(i) => from <= i < rows.len() && rows[i].sequence == sequence,
            None => forall|j: int|
                from <= j < rows.len() ==> (#[trigger] rows[j]).sequence != sequence,
        },
    decreases rows.len() - from,
{
    if from < rows.len() && rows[from].sequence != sequence {
        lemma_find_sequence(rows, sequence, from + 1);
    }
}

// ---------------------------------------------------------------------------
// What is unique
// ---------------------------------------------------------------------------

/// A project has one room at most.
pub proof fn lemma_project_room(tables: Tables, room_id: Seq<char>, project_slug: Seq<char>)
    requires
        tables.valid(),
        tables.has_project(room_id, project_slug),
    ensures
        tables.project_room(project_slug) == Some(room_id),
{
    let chosen = choose|id: Seq<char>| tables.has_project(id, project_slug);
    assert(tables.has_project(chosen, project_slug));
    if chosen != room_id {
        assert(tables.rooms[chosen].project_slug != tables.rooms[room_id].project_slug);
    }
}

/// Two ascending lists with the same entries are one list.
pub proof fn lemma_ascending_unique(
    a: Seq<(Seq<char>, Seq<char>)>,
    b: Seq<(Seq<char>, Seq<char>)>,
)
    requires
        projects_ascend(a),
        projects_ascend(b),
        forall|x: (Seq<char>, Seq<char>)| a.contains(x) <==> b.contains(x),
    ensures
        a == b,
    decreases a.len(),
{
    if a.len() == 0 {
        if b.len() > 0 {
            assert(b.contains(b[0]));
            assert(a.contains(b[0]));
        }
        assert(a =~= b);
    } else {
        assert(a.contains(a[0]));
        assert(b.contains(a[0]));
        let k = choose|k: int| 0 <= k < b.len() && b[k] == a[0];
        if k > 0 {
            assert(precedes(b[0].0, b[k].0));
            assert(b.contains(b[0]));
            assert(a.contains(b[0]));
            let m = choose|m: int| 0 <= m < a.len() && a[m] == b[0];
            if m > 0 {
                assert(precedes(a[0].0, a[m].0));
                lemma_precedes_transitive(a[0].0, b[0].0, a[0].0);
            }
            lemma_precedes_irreflexive(a[0].0);
        }
        let x = a.skip(1);
        let y = b.skip(1);
        assert(projects_ascend(x)) by {
            assert forall|i: int, j: int| 0 <= i < j < x.len() implies precedes(
                (#[trigger] x[i]).0,
                (#[trigger] x[j]).0,
            ) by {
                assert(precedes(a[i + 1].0, a[j + 1].0));
            }
        }
        assert(projects_ascend(y)) by {
            assert forall|i: int, j: int| 0 <= i < j < y.len() implies precedes(
                (#[trigger] y[i]).0,
                (#[trigger] y[j]).0,
            ) by {
                assert(precedes(b[i + 1].0, b[j + 1].0));
            }
        }
        assert forall|p: (Seq<char>, Seq<char>)| x.contains(p) <==> y.contains(p) by {
            lemma_precedes_irreflexive(a[0].0);
            if x.contains(p) {
                let i = choose|i: int| 0 <= i < x.len() && x[i] == p;
                assert(a[i + 1] == p);
                assert(a.contains(p));
                assert(precedes(a[0].0, a[i + 1].0));
                let j = choose|j: int| 0 <= j < b.len() && b[j] == p;
                assert(b[j] == p);
                assert(y[j - 1] == p);
            }
            if y.contains(p) {
                let i = choose|i: int| 0 <= i < y.len() && y[i] == p;
                assert(b[i + 1] == p);
                assert(b.contains(p));
                assert(precedes(b[0].0, b[i + 1].0));
                let j = choose|j: int| 0 <= j < a.len() && a[j] == p;
                assert(a[j] == p);
                assert(x[j - 1] == p);
            }
        }
        lemma_ascending_unique(x, y);
        assert(a =~= seq![a[0]] + x);
        assert(b =~= seq![b[0]] + y);
    }
}

/// There is one list of the project rooms.
pub proof fn lemma_project_list(tables: Tables, list: Seq<(Seq<char>, Seq<char>)>)
    requires
        tables.is_project_list(list),
    ensures
        tables.project_list() == list,
{
    let other = tables.project_list();
    assert forall|x: (Seq<char>, Seq<char>)| list.contains(x) <==> other.contains(x) by {
        assert(list.contains((x.0, x.1)) <==> tables.has_project(x.1, x.0));
        assert(other.contains((x.0, x.1)) <==> tables.has_project(x.1, x.0));
    }
    lemma_ascending_unique(list, other);
}

} // verus!
