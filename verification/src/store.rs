//! The queue: inbound events, answers, and rooms.
//!
//! `StateStore` holds the rows in memory and keeps a journal of the rows that changed since the
//! last time they were taken for writing to disk.

use vstd::prelude::*;
use vstd::slice::slice_to_vec;

use crate::clock::{clock_fails, clock_gives, now_epoch, reading};
use crate::encoding::{base64_encode, encodable, fits_base64};
use crate::keyed::{
    distinct_keys, keyed, lemma_keyed_contains, lemma_keyed_push, lemma_keyed_remove,
    lemma_keyed_row, lemma_keyed_update,
};
use crate::model::{
    count_state, event_ok, event_view, find_event, find_sequence, first_eligible, kind_label,
    lemma_find_event, lemma_find_sequence, lemma_project_list, lemma_project_room, plain_kind,
    projects_ascend, requeued_row, ChangeRecord, EventView, InboundRecord, NewEvent, OutboundRecord,
    ProactiveRecord, RoomRecord, Tables, STALE_CLAIM_SECONDS,
};
use crate::records::{
    option_bytes, Change, EventKind, EventState, InboundEvent, InboundImage, InboundRow,
    OutboundRow, ProactiveRow, ProjectRoomBinding, RoomRow, Snapshot, SourceEventContext,
    StoreError,
};
use crate::text::{
    blank_text, id_texts, is_blank, lemma_precedes_total, lemma_precedes_transitive, option_str,
    option_text, precedes, same_text, text_precedes,
};

verus! {

broadcast use vstd::string::group_string_axioms;

/// The queue.
pub struct StateStore {
    inbound: Vec<InboundRow>,
    outbound: Vec<OutboundRow>,
    rooms: Vec<RoomRow>,
    proactive: Vec<ProactiveRow>,
    journal: Vec<Change>,
    base: Ghost<Tables>,
}

/// The records that inbound rows stand for.
pub open spec fn inbound_records(rows: Seq<InboundRow>) -> Seq<InboundRecord> {
    Seq::new(rows.len(), |i: int| rows[i]@)
}

/// The keyed records that outbound rows stand for.
pub open spec fn outbound_records(rows: Seq<OutboundRow>) -> Seq<(Seq<char>, OutboundRecord)> {
    Seq::new(rows.len(), |i: int| rows[i]@)
}

/// The keyed records that room rows stand for.
pub open spec fn room_records(rows: Seq<RoomRow>) -> Seq<(Seq<char>, RoomRecord)> {
    Seq::new(rows.len(), |i: int| rows[i]@)
}

/// The keyed records that proactive rows stand for.
pub open spec fn proactive_records(rows: Seq<ProactiveRow>) -> Seq<(Seq<char>, ProactiveRecord)> {
    Seq::new(rows.len(), |i: int| rows[i]@)
}

/// The changes that a list of changed rows stands for.
pub open spec fn change_records(changes: Seq<Change>) -> Seq<ChangeRecord> {
    Seq::new(changes.len(), |i: int| changes[i]@)
}

impl Snapshot {
    /// The tables that the rows stand for.
    pub open spec fn tables(&self) -> Tables {
        Tables {
            inbound: inbound_records(self.inbound@),
            outbound: keyed(outbound_records(self.outbound@)),
            rooms: keyed(room_records(self.rooms@)),
            proactive: keyed(proactive_records(self.proactive@)),
        }
    }

    /// True when the rows keep the rules of the tables: no key occurs twice, and the tables are
    /// valid.
    pub open spec fn sound(&self) -> bool {
        &&& distinct_keys(outbound_records(self.outbound@))
        &&& distinct_keys(room_records(self.rooms@))
        &&& distinct_keys(proactive_records(self.proactive@))
        &&& self.tables().valid()
    }
}

impl View for StateStore {
    type V = Tables;

    closed spec fn view(&self) -> Tables {
        Tables {
            inbound: inbound_records(self.inbound@),
            outbound: keyed(outbound_records(self.outbound@)),
            rooms: keyed(room_records(self.rooms@)),
            proactive: keyed(proactive_records(self.proactive@)),
        }
    }
}

/// One more change at the end of a list is applied last.
proof fn lemma_replay_push(tables: Tables, changes: Seq<ChangeRecord>, change: ChangeRecord)
    ensures
        tables.replay(changes.push(change)) == tables.replay(changes).apply(change),
{
    assert(changes.push(change).drop_last() =~= changes);
}

impl StateStore {
    /// The tables as they were when the changed rows were last taken.
    pub closed spec fn persisted(&self) -> Tables {
        self.base@
    }

    /// The changes since then.
    pub closed spec fn pending(&self) -> Seq<ChangeRecord> {
        change_records(self.journal@)
    }

    /// What always holds of a store: its tables are valid, and replaying the pending changes on
    /// the persisted tables gives them.
    pub closed spec fn wf(&self) -> bool {
        &&& distinct_keys(outbound_records(self.outbound@))
        &&& distinct_keys(room_records(self.rooms@))
        &&& distinct_keys(proactive_records(self.proactive@))
        &&& self@.valid()
        &&& self.persisted().replay(self.pending()) == self@
    }

    /// The tables of a store are valid, and the pending changes lead to them from what was last
    /// taken for writing.
    pub proof fn law_tables_keep_their_rules(&self)
        requires
            self.wf(),
        ensures
            self@.valid(),
            self.persisted().replay(self.pending()) == self@,
    {
    }

    /// Adds a change to the journal.
    fn record(&mut self, change: Change, Ghost(before): Ghost<Tables>)
        requires
            distinct_keys(outbound_records(old(self).outbound@)),
            distinct_keys(room_records(old(self).rooms@)),
            distinct_keys(proactive_records(old(self).proactive@)),
            old(self)@.valid(),
            old(self).persisted().replay(old(self).pending()) == before,
            before.apply(change@) == old(self)@,
        ensures
            final(self).wf(),
            final(self)@ == old(self)@,
            final(self).persisted() == old(self).persisted(),
    {
        let ghost changes = self.pending();
        let ghost added = change@;
        self.journal.push(change);
        proof {
            lemma_replay_push(self.persisted(), changes, added);
            assert(self.pending() =~= changes.push(added));
        }
    }

    /// Writes the row at position `i`.
    fn write_row(&mut self, i: usize, row: InboundRow)
        requires
            old(self).wf(),
            i < old(self)@.inbound.len(),
            row@.sequence == old(self)@.inbound[i as int].sequence,
            row@.event_id == old(self)@.inbound[i as int].event_id,
            row@.image_data is Some ==> encodable(row@.image_data->0.len()),
        ensures
            final(self).wf(),
            final(self)@ == old(self)@.with_inbound(old(self)@.inbound.update(i as int, row@)),
            final(self).persisted() == old(self).persisted(),
    {
        let ghost before = self@;
        let ghost record = row@;
        let copy = row.copy();
        self.inbound.set(i, row);
        proof {
            assert(self@.inbound =~= before.inbound.update(i as int, record));
            assert(self@.valid()) by {
                let rows = self@.inbound;
                assert forall|a: int, b: int| 0 <= a < b < rows.len() implies (
                #[trigger] rows[a]).sequence < (#[trigger] rows[b]).sequence && rows[a].event_id
                    != rows[b].event_id by {
                    assert(before.inbound[a].sequence < before.inbound[b].sequence);
                }
            }
            lemma_find_sequence(before.inbound, record.sequence, 0);
            let found = find_sequence(before.inbound, record.sequence, 0);
            assert(found is Some) by {
                if found is None {
                    assert(before.inbound[i as int].sequence != record.sequence);
                }
            }
            let k = found->0;
            if k < i {
                assert(before.inbound[k].sequence < before.inbound[i as int].sequence);
            } else if k > i {
                assert(before.inbound[i as int].sequence < before.inbound[k].sequence);
            }
        }
        self.record(Change::Inbound(copy), Ghost(before));
    }

    /// Adds a row behind the others.
    fn push_row(&mut self, row: InboundRow)
        requires
            old(self).wf(),
            forall|i: int|
                0 <= i < old(self)@.inbound.len() ==> (#[trigger] old(self)@.inbound[i]).sequence
                    < row@.sequence && old(self)@.inbound[i].event_id != row@.event_id,
            row@.image_data is Some ==> encodable(row@.image_data->0.len()),
        ensures
            final(self).wf(),
            final(self)@ == old(self)@.with_inbound(old(self)@.inbound.push(row@)),
            final(self).persisted() == old(self).persisted(),
    {
        let ghost before = self@;
        let ghost record = row@;
        let copy = row.copy();
        self.inbound.push(row);
        proof {
            assert(self@.inbound =~= before.inbound.push(record));
            assert(self@.valid()) by {
                let rows = self@.inbound;
                assert forall|a: int, b: int| 0 <= a < b < rows.len() implies (
                #[trigger] rows[a]).sequence < (#[trigger] rows[b]).sequence && rows[a].event_id
                    != rows[b].event_id by {
                    assert(rows[a] == before.inbound[a]);
                    if b < before.inbound.len() {
                        assert(rows[b] == before.inbound[b]);
                    }
                }
                assert forall|a: int|
                    0 <= a < rows.len() && (#[trigger] rows[a]).image_data is Some implies encodable(
                    rows[a].image_data->0.len(),
                ) by {
                    if a < before.inbound.len() {
                        assert(rows[a] == before.inbound[a]);
                    }
                }
            }
            lemma_find_sequence(before.inbound, record.sequence, 0);
        }
        self.record(Change::Inbound(copy), Ghost(before));
    }

    /// The position of the row of a room.
    fn room_position(&self, room_id: &str) -> (r: Option<usize>)
        requires
            self.wf(),
        ensures
            match r {
                Some(i) => i < self.rooms@.len() && self.rooms@[i as int].room_id@ == room_id@
                    && self@.rooms.contains_key(room_id@) && self@.rooms[room_id@]
                    == self.rooms@[i as int]@.1,
                None => !self@.rooms.contains_key(room_id@),
            },
    {
        let wanted = room_id.to_owned();
        let mut i: usize = 0;
        let ghost rows = room_records(self.rooms@);
        while i < self.rooms.len()
            invariant
                self.wf(),
                wanted@ == room_id@,
                rows == room_records(self.rooms@),
                i <= self.rooms@.len(),
                forall|j: int| 0 <= j < i ==> (#[trigger] rows[j]).0 != room_id@,
            decreases self.rooms@.len() - i,
        {
            if self.rooms[i].room_id == wanted {
                proof {
                    assert(rows[i as int].0 == room_id@);
                    lemma_keyed_row(rows, i as int);
                }
                return Some(i);
            }
            i = i + 1;
        }
        proof {
            lemma_keyed_contains(rows, room_id@);
        }
        None
    }

    /// True when the room is bound and enabled.
    pub fn room_enabled(&self, room_id: &str) -> (r: bool)
        requires
            self.wf(),
        ensures
            r == self@.room_enabled(room_id@),
    {
        match self.room_position(room_id) {
            Some(i) => self.rooms[i].enabled,
            None => false,
        }
    }

    /// The position of the row of an event.
    fn event_position(&self, event_id: &str) -> (r: Option<usize>)
        requires
            self.wf(),
        ensures
            match r {
                Some(i) => self@.position(event_id@) == Some(i as int) && i < self.inbound@.len()
                    && self@.inbound[i as int] == self.inbound@[i as int]@ && self@.inbound.len()
                    == self.inbound@.len() && self@.inbound[i as int].event_id == event_id@,
                None => self@.position(event_id@) is None,
            },
    {
        let wanted = event_id.to_owned();
        let mut i: usize = 0;
        while i < self.inbound.len()
            invariant
                self.wf(),
                wanted@ == event_id@,
                i <= self.inbound@.len(),
                self@.position(event_id@) == find_event(self@.inbound, event_id@, i as int),
            decreases self.inbound@.len() - i,
        {
            if self.inbound[i].event_id == wanted {
                return Some(i);
            }
            i = i + 1;
        }
        None
    }

    /// True when the event was ever taken in.
    pub fn contains_event(&self, event_id: &str) -> (r: bool)
        requires
            self.wf(),
        ensures
            r == self@.contains_event(event_id@),
    {
        self.event_position(event_id).is_some()
    }

    // -----------------------------------------------------------------------
    // Taking events in
    // -----------------------------------------------------------------------

    /// The answer to an event that is refused or dropped before the clock is read.
    fn refusal(&self, event_id: &str, room_id: &str, body: &str, kind: EventKind, image: bool) -> (r:
        Option<Result<bool, StoreError>>)
        requires
            self.wf(),
        ensures
            ({
                let ok = event_id@.len() > 0 && room_id@.len() > 0 && !is_blank(body@) && (kind
                    == EventKind::Image) == image;
                r == if !ok {
                    Some(Err::<bool, StoreError>(StoreError::InvalidEvent))
                } else if !self@.room_enabled(room_id@) {
                    Some(Ok::<bool, StoreError>(false))
                } else {
                    None
                }
            }),
    {
        if event_id.is_empty() || room_id.is_empty() || blank_text(body) || (kind
            == EventKind::Image) != image {
            return Some(Err(StoreError::InvalidEvent));
        }
        if !self.room_enabled(room_id) {
            return Some(Ok(false));
        }
        None
    }

    /// Takes an event in at time `now`.
    fn enqueue_inner_at(
        &mut self,
        event_id: &str,
        room_id: &str,
        body: &str,
        kind: EventKind,
        image_mime: Option<String>,
        image_data: Option<Vec<u8>>,
        now: i64,
    ) -> (r: Result<bool, StoreError>)
        requires
            old(self).wf(),
            image_data is Some ==> encodable(image_data->0@.len()),
        ensures
            final(self).wf(),
            final(self).persisted() == old(self).persisted(),
            (final(self)@, r) == old(self)@.enqueue(
                NewEvent {
                    event_id: event_id@,
                    room_id: room_id@,
                    body: body@,
                    kind,
                    image_mime: option_text(image_mime),
                    image_data: option_bytes(image_data),
                },
                now,
            ),
    {
        let image = image_mime.is_some() && image_data.is_some();
        match self.refusal(event_id, room_id, body, kind, image) {
            Some(answer) => {
                return answer;
            },
            None => {},
        }
        if self.contains_event(event_id) {
            return Ok(false);
        }
        let n: usize = self.inbound.len();
        let sequence: i64 = if n == 0 {
            1
        } else {
            let last: i64 = self.inbound[n - 1].sequence;
            proof {
                assert(self@.inbound.last() == self.inbound@[n - 1]@);
            }
            if last == i64::MAX {
                return Err(StoreError::SequenceExhausted);
            }
            last + 1
        };
        let row = InboundRow {
            sequence,
            event_id: event_id.to_owned(),
            room_id: room_id.to_owned(),
            body: body.to_owned(),
            kind,
            state: EventState::Queued,
            received_at: now,
            claimed_at: None,
            outbound_event_id: None,
            image_mime,
            image_data,
        };
        proof {
            let rows = self@.inbound;
            lemma_find_event(rows, event_id@, 0);
            assert forall|i: int| 0 <= i < rows.len() implies (#[trigger] rows[i]).sequence
                < row@.sequence && rows[i].event_id != row@.event_id by {
                if i < rows.len() - 1 {
                    assert(rows[i].sequence < rows[rows.len() - 1].sequence);
                }
            }
        }
        self.push_row(row);
        Ok(true)
    }

    /// Takes an event in.
    fn enqueue_inner(
        &mut self,
        event_id: &str,
        room_id: &str,
        body: &str,
        kind: EventKind,
        image_mime: Option<String>,
        image_data: Option<Vec<u8>>,
    ) -> (r: Result<bool, StoreError>)
        requires
            old(self).wf(),
            image_data is Some ==> encodable(image_data->0@.len()),
        ensures
            final(self).wf(),
            final(self).persisted() == old(self).persisted(),
            ({
                let event = NewEvent {
                    event_id: event_id@,
                    room_id: room_id@,
                    body: body@,
                    kind,
                    image_mime: option_text(image_mime),
                    image_data: option_bytes(image_data),
                };
                ||| exists|now: i64|
                    clock_gives(now) && (final(self)@, r) == #[trigger] old(self)@.enqueue(
                        event,
                        now,
                    )
                ||| r == Err::<bool, StoreError>(StoreError::Clock) && *final(self) == *old(self)
                    && event_ok(event) && old(self)@.room_enabled(room_id@) && clock_fails()
                ||| !(event_ok(event) && old(self)@.room_enabled(room_id@)) && forall|now: i64|
                    (final(self)@, r) == #[trigger] old(self)@.enqueue(event, now)
            }),
    {
        let image = image_mime.is_some() && image_data.is_some();
        let ghost event = NewEvent {
            event_id: event_id@,
            room_id: room_id@,
            body: body@,
            kind,
            image_mime: option_text(image_mime),
            image_data: option_bytes(image_data),
        };
        match self.refusal(event_id, room_id, body, kind, image) {
            Some(answer) => {
                return answer;
            },
            None => {},
        }
        match reading(now_epoch) {
            Ok(now) => self.enqueue_inner_at(
                event_id,
                room_id,
                body,
                kind,
                image_mime,
                image_data,
                now,
            ),
            Err(error) => Err(error),
        }
    }

    /// Takes in an event without an image, of the kind named, at time `now`. True when it was
    /// queued; false when its room is not enabled or the event is known already.
    pub fn enqueue_at(
        &mut self,
        event_id: &str,
        room_id: &str,
        body: &str,
        kind: &str,
        now: i64,
    ) -> (r: Result<bool, StoreError>)
        requires
            old(self).wf(),
        ensures
            final(self).wf(),
            final(self).persisted() == old(self).persisted(),
            (final(self)@, r) == old(self)@.enqueue_plain(event_id@, room_id@, body@, kind@, now),
    {
        if same_text(kind, "text") {
            self.enqueue_inner_at(event_id, room_id, body, EventKind::Text, None, None, now)
        } else if same_text(kind, "voice") {
            self.enqueue_inner_at(event_id, room_id, body, EventKind::Voice, None, None, now)
        } else {
            Err(StoreError::InvalidKind)
        }
    }

    /// Takes in an event without an image, of the kind named. True when it was queued; false
    /// when its room is not enabled or the event is known already.
    pub fn enqueue(&mut self, event_id: &str, room_id: &str, body: &str, kind: &str) -> (r: Result<
        bool,
        StoreError,
    >)
        requires
            old(self).wf(),
        ensures
            final(self).wf(),
            final(self).persisted() == old(self).persisted(),
            ({
                let needs_clock = plain_kind(kind@) is Some && event_id@.len() > 0
                    && room_id@.len() > 0 && !is_blank(body@) && old(self)@.room_enabled(room_id@);
                ||| exists|now: i64|
                    clock_gives(now) && (final(self)@, r) == #[trigger] old(self)@.enqueue_plain(
                        event_id@,
                        room_id@,
                        body@,
                        kind@,
                        now,
                    )
                ||| r == Err::<bool, StoreError>(StoreError::Clock) && *final(self) == *old(self)
                    && needs_clock && clock_fails()
                ||| !needs_clock && forall|now: i64|
                    (final(self)@, r) == #[trigger] old(self)@.enqueue_plain(
                        event_id@,
                        room_id@,
                        body@,
                        kind@,
                        now,
                    )
            }),
    {
        let named = if same_text(kind, "text") {
            EventKind::Text
        } else if same_text(kind, "voice") {
            EventKind::Voice
        } else {
            return Err(StoreError::InvalidKind);
        };
        let r = self.enqueue_inner(event_id, room_id, body, named, None, None);
        proof {
            let event = NewEvent {
                event_id: event_id@,
                room_id: room_id@,
                body: body@,
                kind: named,
                image_mime: None,
                image_data: None,
            };
            if exists|now: i64|
                clock_gives(now) && (self@, r) == #[trigger] old(self)@.enqueue(event, now) {
                let now = choose|now: i64|
                    clock_gives(now) && (self@, r) == #[trigger] old(self)@.enqueue(event, now);
                assert((self@, r) == old(self)@.enqueue_plain(
                    event_id@,
                    room_id@,
                    body@,
                    kind@,
                    now,
                ));
            }
        }
        r
    }

    /// Takes in an event with an image at time `now`.
    pub fn enqueue_image_at(
        &mut self,
        event_id: &str,
        room_id: &str,
        body: &str,
        media_type: &str,
        data: &[u8],
        now: i64,
    ) -> (r: Result<bool, StoreError>)
        requires
            old(self).wf(),
            encodable(data@.len()),
        ensures
            final(self).wf(),
            final(self).persisted() == old(self).persisted(),
            (final(self)@, r) == old(self)@.enqueue_image(
                event_id@,
                room_id@,
                body@,
                media_type@,
                data@,
                now,
            ),
    {
        if data.len() == 0 || media_type.is_empty() {
            return Err(StoreError::InvalidImage);
        }
        self.enqueue_inner_at(
            event_id,
            room_id,
            body,
            EventKind::Image,
            Some(media_type.to_owned()),
            Some(slice_to_vec(data)),
            now,
        )
    }

    /// Takes in an event with an image.
    pub fn enqueue_image(
        &mut self,
        event_id: &str,
        room_id: &str,
        body: &str,
        media_type: &str,
        data: &[u8],
    ) -> (r: Result<bool, StoreError>)
        requires
            old(self).wf(),
            encodable(data@.len()),
        ensures
            final(self).wf(),
            final(self).persisted() == old(self).persisted(),
            ({
                let needs_clock = data@.len() > 0 && media_type@.len() > 0 && event_id@.len() > 0
                    && room_id@.len() > 0 && !is_blank(body@) && old(self)@.room_enabled(room_id@);
                ||| exists|now: i64|
                    clock_gives(now) && (final(self)@, r) == #[trigger] old(self)@.enqueue_image(
                        event_id@,
                        room_id@,
                        body@,
                        media_type@,
                        data@,
                        now,
                    )
                ||| r == Err::<bool, StoreError>(StoreError::Clock) && *final(self) == *old(self)
                    && needs_clock && clock_fails()
                ||| !needs_clock && forall|now: i64|
                    (final(self)@, r) == #[trigger] old(self)@.enqueue_image(
                        event_id@,
                        room_id@,
                        body@,
                        media_type@,
                        data@,
                        now,
                    )
            }),
    {
        if data.len() == 0 || media_type.is_empty() {
            return Err(StoreError::InvalidImage);
        }
        let r = self.enqueue_inner(
            event_id,
            room_id,
            body,
            EventKind::Image,
            Some(media_type.to_owned()),
            Some(slice_to_vec(data)),
        );
        proof {
            let event = NewEvent {
                event_id: event_id@,
                room_id: room_id@,
                body: body@,
                kind: EventKind::Image,
                image_mime: Some(media_type@),
                image_data: Some(data@),
            };
            if exists|now: i64|
                clock_gives(now) && (self@, r) == #[trigger] old(self)@.enqueue(event, now) {
                let now = choose|now: i64|
                    clock_gives(now) && (self@, r) == #[trigger] old(self)@.enqueue(event, now);
                assert((self@, r) == old(self)@.enqueue_image(
                    event_id@,
                    room_id@,
                    body@,
                    media_type@,
                    data@,
                    now,
                ));
            }
        }
        r
    }

    // -----------------------------------------------------------------------
    // Claiming and releasing
    // -----------------------------------------------------------------------

    /// Puts the row at position `i` back in the queue.
    fn requeue_row(&mut self, i: usize)
        requires
            old(self).wf(),
            i < old(self)@.inbound.len(),
        ensures
            final(self).wf(),
            final(self).persisted() == old(self).persisted(),
            final(self)@ == old(self)@.with_inbound(
                old(self)@.inbound.update(i as int, requeued_row(old(self)@.inbound[i as int])),
            ),
    {
        proof {
            assert(self@.inbound[i as int] == self.inbound@[i as int]@);
        }
        let mut row = self.inbound[i].copy();
        row.state = EventState::Queued;
        row.claimed_at = None;
        self.write_row(i, row);
    }

    /// Takes abandoned claims back.
    fn reclaim(&mut self, now: i64)
        requires
            old(self).wf(),
        ensures
            final(self).wf(),
            final(self).persisted() == old(self).persisted(),
            final(self)@ == old(self)@.reclaimed(now),
    {
        let n: usize = self.inbound.len();
        let mut i: usize = 0;
        let ghost before = self@;
        let ghost target = self@.reclaimed(now);
        while i < n
            invariant
                self.wf(),
                self.persisted() == old(self).persisted(),
                n == self@.inbound.len(),
                n == before.inbound.len(),
                target == before.reclaimed(now),
                i <= n,
                self@ == before.with_inbound(self@.inbound),
                forall|j: int| 0 <= j < i ==> self@.inbound[j] == target.inbound[j],
                forall|j: int| i <= j < n ==> self@.inbound[j] == before.inbound[j],
            decreases n - i,
        {
            proof {
                assert(self@.inbound[i as int] == self.inbound@[i as int]@);
            }
            let stale = self.inbound[i].state == EventState::Claimed
                && match self.inbound[i].claimed_at {
                Some(time) => now >= i64::MIN + STALE_CLAIM_SECONDS && time <= now
                    - STALE_CLAIM_SECONDS,
                None => false,
            };
            if stale {
                self.requeue_row(i);
            }
            i = i + 1;
        }
        proof {
            assert(self@.inbound =~= target.inbound);
        }
    }

    /// Puts every claim back in the queue.
    fn requeue_claims(&mut self)
        requires
            old(self).wf(),
        ensures
            final(self).wf(),
            final(self).persisted() == old(self).persisted(),
            final(self)@ == old(self)@.requeued(),
    {
        let n: usize = self.inbound.len();
        let mut i: usize = 0;
        let ghost before = self@;
        let ghost target = self@.requeued();
        while i < n
            invariant
                self.wf(),
                self.persisted() == old(self).persisted(),
                n == self@.inbound.len(),
                n == before.inbound.len(),
                target == before.requeued(),
                i <= n,
                self@ == before.with_inbound(self@.inbound),
                forall|j: int| 0 <= j < i ==> self@.inbound[j] == target.inbound[j],
                forall|j: int| i <= j < n ==> self@.inbound[j] == before.inbound[j],
            decreases n - i,
        {
            proof {
                assert(self@.inbound[i as int] == self.inbound@[i as int]@);
            }
            if self.inbound[i].state == EventState::Claimed {
                self.requeue_row(i);
            }
            i = i + 1;
        }
        proof {
            assert(self@.inbound =~= target.inbound);
        }
    }

    /// The event at position `i` as it is handed out.
    fn event_at(&self, i: usize) -> (r: InboundEvent)
        requires
            self.wf(),
            i < self@.inbound.len(),
        ensures
            r@ == event_view(self@.inbound[i as int]),
    {
        proof {
            assert(self@.inbound[i as int] == self.inbound@[i as int]@);
        }
        let row = &self.inbound[i];
        let image = match &row.image_mime {
            Some(media_type) => match &row.image_data {
                Some(data) => Some(
                    InboundImage {
                        media_type: media_type.clone(),
                        data: base64_encode(data.as_slice()),
                    },
                ),
                None => None,
            },
            None => None,
        };
        InboundEvent {
            event_id: row.event_id.clone(),
            room_id: row.room_id.clone(),
            body: row.body.clone(),
            kind: kind_name(row.kind),
            image,
        }
    }

    /// Claims the first queued event at time `now`, of any room or of the one room given.
    /// Abandoned claims go back to the queue first.
    pub fn claim_at(&mut self, room_id: Option<&str>, now: i64) -> (r: Option<InboundEvent>)
        requires
            old(self).wf(),
        ensures
            final(self).wf(),
            final(self).persisted() == old(self).persisted(),
            (final(self)@, option_event(r)) == old(self)@.claim(option_str(room_id), now),
    {
        self.reclaim(now);
        let ghost tables = self@;
        let ghost scope = option_str(room_id);
        let wanted = match room_id {
            Some(room) => Some(room.to_owned()),
            None => None,
        };
        let mut i: usize = 0;
        while i < self.inbound.len()
            invariant
                self.wf(),
                self.persisted() == old(self).persisted(),
                self@ == tables,
                tables == old(self)@.reclaimed(now),
                scope == option_str(room_id),
                option_text(wanted) == scope,
                i <= self.inbound@.len(),
                self.inbound@.len() == self@.inbound.len(),
                first_eligible(tables.inbound, scope, 0) == first_eligible(
                    tables.inbound,
                    scope,
                    i as int,
                ),
            decreases self.inbound@.len() - i,
        {
            proof {
                assert(self@.inbound[i as int] == self.inbound@[i as int]@);
            }
            let in_scope = match &wanted {
                Some(room) => self.inbound[i].room_id == *room,
                None => true,
            };
            if in_scope && self.inbound[i].state == EventState::Queued {
                let event = self.event_at(i);
                let mut row = self.inbound[i].copy();
                row.state = EventState::Claimed;
                row.claimed_at = Some(now);
                self.write_row(i, row);
                return Some(event);
            }
            i = i + 1;
        }
        None
    }

    /// Claims the first queued event, of any room or of the one room given.
    pub fn claim(&mut self, room_id: Option<&str>) -> (r: Result<Option<InboundEvent>, StoreError>)
        requires
            old(self).wf(),
        ensures
            final(self).wf(),
            final(self).persisted() == old(self).persisted(),
            match r {
                Ok(event) => exists|now: i64|
                    clock_gives(now) && (final(self)@, option_event(event)) == #[trigger] old(self)@.claim(
                        option_str(room_id),
                        now,
                    ),
                Err(error) => error == StoreError::Clock && *final(self) == *old(self)
                    && clock_fails(),
            },
    {
        match reading(now_epoch) {
            Ok(now) => {
                let event = self.claim_at(room_id, now);
                Ok(event)
            },
            Err(error) => Err(error),
        }
    }

    /// Puts a claimed event back in its place in the queue. True when it was claimed.
    pub fn release(&mut self, event_id: &str) -> (r: bool)
        requires
            old(self).wf(),
        ensures
            final(self).wf(),
            final(self).persisted() == old(self).persisted(),
            (final(self)@, r) == old(self)@.release(event_id@),
    {
        match self.event_position(event_id) {
            Some(i) => {
                if self.inbound[i].state == EventState::Claimed {
                    self.requeue_row(i);
                    true
                } else {
                    false
                }
            },
            None => false,
        }
    }

    /// Where an event came from and what it carried.
    pub fn source_context(&self, event_id: &str) -> (r: Option<SourceEventContext>)
        requires
            self.wf(),
        ensures
            match r {
                Some(source) => self@.position(event_id@) is Some && source@ == (
                    self@.inbound[self@.position(event_id@)->0].room_id,
                    kind_label(self@.inbound[self@.position(event_id@)->0].kind),
                ),
                None => self@.position(event_id@) is None,
            },
    {
        match self.event_position(event_id) {
            Some(i) => Some(
                SourceEventContext {
                    room_id: self.inbound[i].room_id.clone(),
                    kind: kind_name(self.inbound[i].kind),
                },
            ),
            None => None,
        }
    }

    /// The numbers of queued, claimed and completed events.
    pub fn counts(&self) -> (r: (u64, u64, u64))
        requires
            self.wf(),
        ensures
            r.0 == count_state(self@.inbound, EventState::Queued),
            r.1 == count_state(self@.inbound, EventState::Claimed),
            r.2 == count_state(self@.inbound, EventState::Completed),
            r.0 + r.1 + r.2 == self@.inbound.len(),
    {
        let mut queued: u64 = 0;
        let mut claimed: u64 = 0;
        let mut completed: u64 = 0;
        let mut i: usize = 0;
        let ghost rows = self@.inbound;
        while i < self.inbound.len()
            invariant
                rows == self@.inbound,
                rows.len() == self.inbound@.len(),
                i <= rows.len(),
                queued == count_state(rows.take(i as int), EventState::Queued),
                claimed == count_state(rows.take(i as int), EventState::Claimed),
                completed == count_state(rows.take(i as int), EventState::Completed),
                queued + claimed + completed == i,
            decreases rows.len() - i,
        {
            proof {
                assert(rows[i as int] == self.inbound@[i as int]@);
                assert(rows.take(i + 1).drop_last() =~= rows.take(i as int));
                assert(rows.take(i + 1).last() == rows[i as int]);
            }
            match self.inbound[i].state {
                EventState::Queued => {
                    queued = queued + 1;
                },
                EventState::Claimed => {
                    claimed = claimed + 1;
                },
                EventState::Completed => {
                    completed = completed + 1;
                },
            }
            i = i + 1;
        }
        proof {
            assert(rows.take(i as int) =~= rows);
        }
        (queued, claimed, completed)
    }
}

impl StateStore {
    // -----------------------------------------------------------------------
    // Answers
    // -----------------------------------------------------------------------

    /// The position of the row of an answer.
    fn outbound_position(&self, idempotency_key: &str) -> (r: Option<usize>)
        requires
            self.wf(),
        ensures
            match r {
                Some(i) => i < self.outbound@.len() && self@.outbound.contains_key(idempotency_key@)
                    && self@.outbound[idempotency_key@] == self.outbound@[i as int]@.1,
                None => !self@.outbound.contains_key(idempotency_key@),
            },
    {
        let wanted = idempotency_key.to_owned();
        let mut i: usize = 0;
        let ghost rows = outbound_records(self.outbound@);
        while i < self.outbound.len()
            invariant
                self.wf(),
                wanted@ == idempotency_key@,
                rows == outbound_records(self.outbound@),
                i <= self.outbound@.len(),
                forall|j: int| 0 <= j < i ==> (#[trigger] rows[j]).0 != idempotency_key@,
            decreases self.outbound@.len() - i,
        {
            if self.outbound[i].idempotency_key == wanted {
                proof {
                    assert(rows[i as int].0 == idempotency_key@);
                    lemma_keyed_row(rows, i as int);
                }
                return Some(i);
            }
            i = i + 1;
        }
        proof {
            lemma_keyed_contains(rows, idempotency_key@);
        }
        None
    }

    /// Adds an answer under a new key.
    fn add_outbound(&mut self, row: OutboundRow)
        requires
            old(self).wf(),
            !old(self)@.outbound.contains_key(row@.0),
        ensures
            final(self).wf(),
            final(self).persisted() == old(self).persisted(),
            final(self)@ == (Tables {
                outbound: old(self)@.outbound.insert(row@.0, row@.1),
                ..old(self)@
            }),
    {
        let ghost before = self@;
        let ghost rows = outbound_records(self.outbound@);
        let ghost record = row@;
        let copy = row.copy();
        self.outbound.push(row);
        proof {
            lemma_keyed_push(rows, record);
            assert(outbound_records(self.outbound@) =~= rows.push(record));
        }
        self.record(Change::Outbound(copy), Ghost(before));
    }

    /// The Matrix event that answers under this key, if one was sent.
    pub fn outbound_event(&self, idempotency_key: &str) -> (r: Option<String>)
        requires
            self.wf(),
        ensures
            option_text(r) == if self@.outbound.contains_key(idempotency_key@) {
                Some(self@.outbound[idempotency_key@].matrix_event_id)
            } else {
                None
            },
    {
        match self.outbound_position(idempotency_key) {
            Some(i) => Some(self.outbound[i].matrix_event_id.clone()),
            None => None,
        }
    }

    /// Records at time `now` that the source event is answered, and closes it.
    pub fn complete_at(
        &mut self,
        source_event_id: &str,
        idempotency_key: &str,
        matrix_event_id: &str,
        now: i64,
    ) -> (r: Result<(), StoreError>)
        requires
            old(self).wf(),
        ensures
            final(self).wf(),
            final(self).persisted() == old(self).persisted(),
            (final(self)@, r) == old(self)@.complete(
                source_event_id@,
                idempotency_key@,
                matrix_event_id@,
                now,
            ),
    {
        let ghost before = self@;
        match self.event_position(source_event_id) {
            Some(i) => {
                if self.inbound[i].state == EventState::Queued {
                    return Err(StoreError::NotClaimed);
                }
                let mut row = self.inbound[i].copy();
                row.state = EventState::Completed;
                row.claimed_at = None;
                row.outbound_event_id = Some(matrix_event_id.to_owned());
                row.image_mime = None;
                row.image_data = None;
                self.write_row(i, row);
                if self.outbound_position(idempotency_key).is_none() {
                    self.add_outbound(
                        OutboundRow {
                            idempotency_key: idempotency_key.to_owned(),
                            source_event_id: source_event_id.to_owned(),
                            matrix_event_id: matrix_event_id.to_owned(),
                            sent_at: now,
                        },
                    );
                }
                proof {
                    assert(self@ =~= before.complete(
                        source_event_id@,
                        idempotency_key@,
                        matrix_event_id@,
                        now,
                    ).0);
                }
                Ok(())
            },
            None => Err(StoreError::NotClaimed),
        }
    }

    /// Records that the source event is answered, and closes it.
    pub fn complete(&mut self, source_event_id: &str, idempotency_key: &str, matrix_event_id: &str)
        -> (r: Result<(), StoreError>)
        requires
            old(self).wf(),
        ensures
            final(self).wf(),
            final(self).persisted() == old(self).persisted(),
            ({
                ||| exists|now: i64|
                    clock_gives(now) && (final(self)@, r) == #[trigger] old(self)@.complete(
                    source_event_id@,
                    idempotency_key@,
                    matrix_event_id@,
                    now,
                )
                ||| r == Err::<(), StoreError>(StoreError::Clock) && *final(self) == *old(self)
                    && clock_fails()
            }),
    {
        match reading(now_epoch) {
            Ok(now) => self.complete_at(source_event_id, idempotency_key, matrix_event_id, now),
            Err(error) => Err(error),
        }
    }

    /// The position of the row of a message that answers no event.
    fn proactive_position(&self, idempotency_key: &str) -> (r: Option<usize>)
        requires
            self.wf(),
        ensures
            match r {
                Some(i) => i < self.proactive@.len() && self@.proactive.contains_key(
                    idempotency_key@,
                ) && self@.proactive[idempotency_key@] == self.proactive@[i as int]@.1,
                None => !self@.proactive.contains_key(idempotency_key@),
            },
    {
        let wanted = idempotency_key.to_owned();
        let mut i: usize = 0;
        let ghost rows = proactive_records(self.proactive@);
        while i < self.proactive.len()
            invariant
                self.wf(),
                wanted@ == idempotency_key@,
                rows == proactive_records(self.proactive@),
                i <= self.proactive@.len(),
                forall|j: int| 0 <= j < i ==> (#[trigger] rows[j]).0 != idempotency_key@,
            decreases self.proactive@.len() - i,
        {
            if self.proactive[i].idempotency_key == wanted {
                proof {
                    assert(rows[i as int].0 == idempotency_key@);
                    lemma_keyed_row(rows, i as int);
                }
                return Some(i);
            }
            i = i + 1;
        }
        proof {
            lemma_keyed_contains(rows, idempotency_key@);
        }
        None
    }

    /// The Matrix event that was sent under this key without answering an event.
    pub fn proactive_outbound_event(&self, idempotency_key: &str) -> (r: Option<String>)
        requires
            self.wf(),
        ensures
            option_text(r) == if self@.proactive.contains_key(idempotency_key@) {
                Some(self@.proactive[idempotency_key@].matrix_event_id)
            } else {
                None
            },
    {
        match self.proactive_position(idempotency_key) {
            Some(i) => Some(self.proactive[i].matrix_event_id.clone()),
            None => None,
        }
    }

    /// Records at time `now` a message that answers no event.
    pub fn complete_proactive_at(&mut self, idempotency_key: &str, matrix_event_id: &str, now: i64)
        requires
            old(self).wf(),
        ensures
            final(self).wf(),
            final(self).persisted() == old(self).persisted(),
            final(self)@ == old(self)@.complete_proactive(idempotency_key@, matrix_event_id@, now),
    {
        if self.proactive_position(idempotency_key).is_some() {
            return;
        }
        let row = ProactiveRow {
            idempotency_key: idempotency_key.to_owned(),
            matrix_event_id: matrix_event_id.to_owned(),
            sent_at: now,
        };
        let ghost before = self@;
        let ghost rows = proactive_records(self.proactive@);
        let ghost record = row@;
        let copy = row.copy();
        self.proactive.push(row);
        proof {
            lemma_keyed_push(rows, record);
            assert(proactive_records(self.proactive@) =~= rows.push(record));
        }
        self.record(Change::Proactive(copy), Ghost(before));
    }

    /// Records a message that answers no event.
    pub fn complete_proactive(&mut self, idempotency_key: &str, matrix_event_id: &str) -> (r: Result<
        (),
        StoreError,
    >)
        requires
            old(self).wf(),
        ensures
            final(self).wf(),
            final(self).persisted() == old(self).persisted(),
            match r {
                Ok(()) => exists|now: i64|
                    clock_gives(now) && final(self)@ == #[trigger] old(self)@.complete_proactive(
                        idempotency_key@,
                        matrix_event_id@,
                        now,
                    ),
                Err(error) => error == StoreError::Clock && *final(self) == *old(self)
                    && clock_fails(),
            },
    {
        match reading(now_epoch) {
            Ok(now) => {
                self.complete_proactive_at(idempotency_key, matrix_event_id, now);
                Ok(())
            },
            Err(error) => Err(error),
        }
    }

    // -----------------------------------------------------------------------
    // Rooms
    // -----------------------------------------------------------------------

    /// True when another room than `room_id` has the project.
    fn slug_taken(&self, room_id: &str, project_slug: &Option<String>) -> (r: bool)
        requires
            self.wf(),
        ensures
            r == self@.slug_taken(room_id@, option_text(*project_slug)),
    {
        let ghost rows = room_records(self.rooms@);
        let ghost slug = option_text(*project_slug);
        match project_slug {
            Some(wanted) => {
                let own = room_id.to_owned();
                let mut i: usize = 0;
                while i < self.rooms.len()
                    invariant
                        self.wf(),
                        own@ == room_id@,
                        slug == Some(wanted@),
                        slug == option_text(*project_slug),
                        rows == room_records(self.rooms@),
                        i <= self.rooms@.len(),
                        forall|j: int|
                            0 <= j < i ==> (#[trigger] rows[j]).0 == room_id@
                                || rows[j].1.project_slug != slug,
                    decreases self.rooms@.len() - i,
                {
                    proof {
                        assert(rows[i as int] == self.rooms@[i as int]@);
                    }
                    let same = match &self.rooms[i].project_slug {
                        Some(other) => *other == *wanted,
                        None => false,
                    };
                    if same && !(self.rooms[i].room_id == own) {
                        proof {
                            lemma_keyed_row(rows, i as int);
                            let other = rows[i as int].0;
                            assert(self@.rooms[other].project_slug == slug);
                        }
                        return true;
                    }
                    i = i + 1;
                }
                proof {
                    if self@.slug_taken(room_id@, slug) {
                        let other = choose|other: Seq<char>|
                            #![trigger self@.rooms[other]]
                            self@.rooms.contains_key(other) && other != room_id@
                                && self@.rooms[other].project_slug == slug;
                        lemma_keyed_contains(rows, other);
                        let j = choose|j: int| 0 <= j < rows.len() && (#[trigger] rows[j]).0 == other;
                        lemma_keyed_row(rows, j);
                    }
                }
                false
            },
            None => false,
        }
    }

    /// Binds a room at time `now`: it is enabled and gets the project, or none.
    pub fn upsert_room_binding_at(&mut self, room_id: &str, project_slug: Option<&str>, now: i64)
        -> (r: Result<(), StoreError>)
        requires
            old(self).wf(),
        ensures
            final(self).wf(),
            final(self).persisted() == old(self).persisted(),
            (final(self)@, r) == old(self)@.bind_room(room_id@, option_str(project_slug), now),
    {
        let slug = match project_slug {
            Some(text) => Some(text.to_owned()),
            None => None,
        };
        if self.slug_taken(room_id, &slug) {
            return Err(StoreError::SlugTaken);
        }
        let ghost before = self@;
        let ghost rows = room_records(self.rooms@);
        match self.room_position(room_id) {
            Some(i) => {
                let row = RoomRow {
                    room_id: room_id.to_owned(),
                    enabled: true,
                    project_slug: slug,
                    created_at: self.rooms[i].created_at,
                    updated_at: now,
                };
                let copy = row.copy();
                let ghost record = row@;
                self.rooms.set(i, row);
                proof {
                    assert(rows[i as int].0 == room_id@);
                    lemma_keyed_update(rows, i as int, record.1);
                    assert(room_records(self.rooms@) =~= rows.update(i as int, record));
                    lemma_bound_valid(before, room_id@, record.1);
                    assert(self@ =~= (Tables {
                        rooms: before.rooms.insert(room_id@, record.1),
                        ..before
                    }));
                }
                self.record(Change::Room(copy), Ghost(before));
            },
            None => {
                let row = RoomRow {
                    room_id: room_id.to_owned(),
                    enabled: true,
                    project_slug: slug,
                    created_at: now,
                    updated_at: now,
                };
                let copy = row.copy();
                let ghost record = row@;
                self.rooms.push(row);
                proof {
                    lemma_keyed_push(rows, record);
                    assert(room_records(self.rooms@) =~= rows.push(record));
                    lemma_bound_valid(before, room_id@, record.1);
                    assert(self@ =~= (Tables {
                        rooms: before.rooms.insert(room_id@, record.1),
                        ..before
                    }));
                }
                self.record(Change::Room(copy), Ghost(before));
            },
        }
        Ok(())
    }

    /// Binds a room: it is enabled and gets the project, or none.
    pub fn upsert_room_binding(&mut self, room_id: &str, project_slug: Option<&str>) -> (r: Result<
        (),
        StoreError,
    >)
        requires
            old(self).wf(),
        ensures
            final(self).wf(),
            final(self).persisted() == old(self).persisted(),
            ({
                ||| exists|now: i64|
                    clock_gives(now) && (final(self)@, r) == #[trigger] old(self)@.bind_room(
                    room_id@,
                    option_str(project_slug),
                    now,
                )
                ||| r == Err::<(), StoreError>(StoreError::Clock) && *final(self) == *old(self)
                    && clock_fails()
            }),
    {
        match reading(now_epoch) {
            Ok(now) => self.upsert_room_binding_at(room_id, project_slug, now),
            Err(error) => Err(error),
        }
    }

    /// Unbinds a room. True when it was bound.
    pub fn remove_room_binding(&mut self, room_id: &str) -> (r: bool)
        requires
            old(self).wf(),
        ensures
            final(self).wf(),
            final(self).persisted() == old(self).persisted(),
            final(self)@ == old(self)@.unbind_room(room_id@),
            r == old(self)@.rooms.contains_key(room_id@),
    {
        let ghost before = self@;
        let ghost rows = room_records(self.rooms@);
        match self.room_position(room_id) {
            Some(i) => {
                let _ = self.rooms.remove(i);
                proof {
                    assert(rows[i as int].0 == room_id@);
                    lemma_keyed_remove(rows, i as int);
                    assert(room_records(self.rooms@) =~= rows.remove(i as int));
                    assert(self@ =~= before.unbind_room(room_id@));
                }
                self.record(Change::RoomRemoved(room_id.to_owned()), Ghost(before));
                true
            },
            None => {
                proof {
                    assert(self@ =~= before.unbind_room(room_id@));
                }
                false
            },
        }
    }

    /// The enabled room that has the project.
    pub fn room_for_project(&self, project_slug: &str) -> (r: Option<String>)
        requires
            self.wf(),
        ensures
            option_text(r) == self@.project_room(project_slug@),
    {
        let wanted = project_slug.to_owned();
        let mut i: usize = 0;
        let ghost rows = room_records(self.rooms@);
        while i < self.rooms.len()
            invariant
                self.wf(),
                wanted@ == project_slug@,
                rows == room_records(self.rooms@),
                i <= self.rooms@.len(),
                forall|j: int|
                    0 <= j < i ==> !((#[trigger] rows[j]).1.enabled && rows[j].1.project_slug
                        == Some(project_slug@)),
            decreases self.rooms@.len() - i,
        {
            proof {
                assert(rows[i as int] == self.rooms@[i as int]@);
            }
            let same = match &self.rooms[i].project_slug {
                Some(slug) => *slug == wanted,
                None => false,
            };
            if same && self.rooms[i].enabled {
                proof {
                    lemma_keyed_row(rows, i as int);
                    lemma_project_room(self@, rows[i as int].0, project_slug@);
                }
                return Some(self.rooms[i].room_id.clone());
            }
            i = i + 1;
        }
        proof {
            assert forall|room_id: Seq<char>| !self@.has_project(room_id, project_slug@) by {
                if self@.has_project(room_id, project_slug@) {
                    lemma_keyed_contains(rows, room_id);
                    let j = choose|j: int| 0 <= j < rows.len() && (#[trigger] rows[j]).0 == room_id;
                    lemma_keyed_row(rows, j);
                }
            }
        }
        None
    }
}

/// The projects and rooms that a list of bindings holds.
pub open spec fn binding_pairs(list: Seq<ProjectRoomBinding>) -> Seq<(Seq<char>, Seq<char>)> {
    Seq::new(list.len(), |i: int| list[i]@)
}

/// Puts a binding in its place in an ascending list.
fn insert_binding(list: &mut Vec<ProjectRoomBinding>, binding: ProjectRoomBinding)
    requires
        projects_ascend(binding_pairs(old(list)@)),
        forall|i: int|
            0 <= i < old(list)@.len() ==> (#[trigger] binding_pairs(old(list)@)[i]).0 != binding@.0,
    ensures
        projects_ascend(binding_pairs(final(list)@)),
        exists|at: int|
            0 <= at <= old(list)@.len() && binding_pairs(final(list)@) == #[trigger] binding_pairs(
                old(list)@,
            ).insert(at, binding@),
{
    let ghost before = binding_pairs(list@);
    let ghost added = binding@;
    let mut at: usize = 0;
    while at < list.len() && text_precedes(
        list[at].project_slug.as_str(),
        binding.project_slug.as_str(),
    )
        invariant
            added == binding@,
            before == binding_pairs(list@),
            at <= list@.len(),
            forall|j: int| 0 <= j < at ==> precedes((#[trigger] before[j]).0, added.0),
        decreases list@.len() - at,
    {
        proof {
            assert(before[at as int] == list@[at as int]@);
        }
        at = at + 1;
    }
    proof {
        if at < before.len() {
            assert(before[at as int] == list@[at as int]@);
            lemma_precedes_total(before[at as int].0, added.0);
        }
    }
    list.insert(at, binding);
    proof {
        let after = binding_pairs(list@);
        assert(after =~= before.insert(at as int, added));
        assert forall|i: int, j: int| 0 <= i < j < after.len() implies precedes(
            (#[trigger] after[i]).0,
            (#[trigger] after[j]).0,
        ) by {
            if i < at && j > at {
                assert(precedes(before[i].0, before[j - 1].0));
            } else if i < at && j < at {
                assert(precedes(before[i].0, before[j].0));
            } else if i > at {
                assert(precedes(before[i - 1].0, before[j - 1].0));
            } else if i == at {
                if j - 1 > at {
                    assert(precedes(before[at as int].0, before[j - 1].0));
                    lemma_precedes_transitive(added.0, before[at as int].0, before[j - 1].0);
                }
            }
        }
    }
}

impl StateStore {
    /// The enabled rooms that have a project, in ascending order of the projects.
    pub fn list_project_rooms(&self) -> (r: Vec<ProjectRoomBinding>)
        requires
            self.wf(),
        ensures
            binding_pairs(r@) == self@.project_list(),
            self@.is_project_list(binding_pairs(r@)),
    {
        let mut list: Vec<ProjectRoomBinding> = Vec::new();
        let mut i: usize = 0;
        let ghost rows = room_records(self.rooms@);
        proof {
            assert(rows.take(0) =~= Seq::empty());
        }
        while i < self.rooms.len()
            invariant
                self.wf(),
                rows == room_records(self.rooms@),
                i <= rows.len(),
                rows.len() == self.rooms@.len(),
                projects_ascend(binding_pairs(list@)),
                forall|k: int|
                    0 <= k < list@.len() ==> exists|j: int|
                        0 <= j < i && (#[trigger] rows[j]).1.enabled && rows[j].1.project_slug
                            == Some((#[trigger] binding_pairs(list@)[k]).0) && rows[j].0
                            == binding_pairs(list@)[k].1,
                forall|j: int|
                    0 <= j < i && (#[trigger] rows[j]).1.enabled && rows[j].1.project_slug is Some
                        ==> binding_pairs(list@).contains((rows[j].1.project_slug->0, rows[j].0)),
            decreases rows.len() - i,
        {
            proof {
                assert(rows[i as int] == self.rooms@[i as int]@);
            }
            let ghost before = binding_pairs(list@);
            if self.rooms[i].enabled {
                match &self.rooms[i].project_slug {
                    Some(slug) => {
                        let binding = ProjectRoomBinding {
                            project_slug: slug.clone(),
                            room_id: self.rooms[i].room_id.clone(),
                        };
                        let ghost added = binding@;
                        proof {
                            assert forall|k: int| 0 <= k < list@.len() implies (
                            #[trigger] before[k]).0 != added.0 by {
                                let j = choose|j: int|
                                    0 <= j < i && (#[trigger] rows[j]).1.enabled
                                        && rows[j].1.project_slug == Some(before[k].0)
                                        && rows[j].0 == before[k].1;
                                lemma_keyed_row(rows, j);
                                lemma_keyed_row(rows, i as int);
                                assert(rows[j].0 != rows[i as int].0);
                                assert(self@.rooms[rows[j].0].project_slug
                                    != self@.rooms[rows[i as int].0].project_slug);
                            }
                        }
                        insert_binding(&mut list, binding);
                        proof {
                            let after = binding_pairs(list@);
                            let at = choose|at: int|
                                0 <= at <= before.len() && after == #[trigger] before.insert(
                                    at,
                                    added,
                                );
                            assert(after[at] == added);
                            assert forall|k: int| 0 <= k < after.len() implies exists|j: int|
                                0 <= j < i + 1 && (#[trigger] rows[j]).1.enabled
                                    && rows[j].1.project_slug == Some((#[trigger] after[k]).0)
                                    && rows[j].0 == after[k].1 by {
                                if k == at {
                                    assert(rows[i as int].1.enabled);
                                } else {
                                    let old_k = if k < at {
                                        k
                                    } else {
                                        k - 1
                                    };
                                    assert(after[k] == before[old_k]);
                                    let j = choose|j: int|
                                        0 <= j < i && (#[trigger] rows[j]).1.enabled
                                            && rows[j].1.project_slug == Some(before[old_k].0)
                                            && rows[j].0 == before[old_k].1;
                                    assert(rows[j].1.enabled);
                                }
                            }
                            assert forall|j: int|
                                0 <= j < i + 1 && (#[trigger] rows[j]).1.enabled
                                    && rows[j].1.project_slug is Some implies after.contains(
                                (rows[j].1.project_slug->0, rows[j].0),
                            ) by {
                                if j < i {
                                    let pair = (rows[j].1.project_slug->0, rows[j].0);
                                    assert(before.contains(pair));
                                    let k = choose|k: int| 0 <= k < before.len() && before[k] == pair;
                                    if k < at {
                                        assert(after[k] == pair);
                                    } else {
                                        assert(after[k + 1] == pair);
                                    }
                                }
                            }
                        }
                    },
                    None => {},
                }
            }
            i = i + 1;
        }
        proof {
            let pairs = binding_pairs(list@);
            assert forall|slug: Seq<char>, room_id: Seq<char>|
                #![trigger self@.has_project(room_id, slug)]
                pairs.contains((slug, room_id)) <==> self@.has_project(room_id, slug) by {
                if pairs.contains((slug, room_id)) {
                    let k = choose|k: int| 0 <= k < pairs.len() && pairs[k] == (slug, room_id);
                    let j = choose|j: int|
                        0 <= j < i && (#[trigger] rows[j]).1.enabled && rows[j].1.project_slug
                            == Some(pairs[k].0) && rows[j].0 == pairs[k].1;
                    lemma_keyed_row(rows, j);
                }
                if self@.has_project(room_id, slug) {
                    lemma_keyed_contains(rows, room_id);
                    let j = choose|j: int| 0 <= j < rows.len() && (#[trigger] rows[j]).0 == room_id;
                    lemma_keyed_row(rows, j);
                    assert(rows[j].1.enabled);
                }
            }
            lemma_project_list(self@, pairs);
        }
        list
    }

    // -----------------------------------------------------------------------
    // Opening and writing to disk
    // -----------------------------------------------------------------------

    /// Hands out the changes since the last time, in order, for writing to disk.
    pub fn take_changes(&mut self) -> (r: Vec<Change>)
        requires
            old(self).wf(),
        ensures
            final(self).wf(),
            final(self)@ == old(self)@,
            final(self).persisted() == old(self)@,
            change_records(r@) == old(self).pending(),
            old(self).persisted().replay(change_records(r@)) == old(self)@,
    {
        let mut taken: Vec<Change> = Vec::new();
        std::mem::swap(&mut taken, &mut self.journal);
        self.base = Ghost(self@);
        proof {
            assert(change_records(self.journal@) =~= Seq::<ChangeRecord>::empty());
        }
        taken
    }

    /// Gives the rows without a room the default room.
    fn fill_rooms(&mut self, default_room_id: &str)
        requires
            old(self).wf(),
        ensures
            final(self).wf(),
            final(self).persisted() == old(self).persisted(),
            final(self)@ == old(self)@.with_default_room(default_room_id@),
    {
        let n: usize = self.inbound.len();
        let mut i: usize = 0;
        let ghost before = self@;
        let ghost target = self@.with_default_room(default_room_id@);
        while i < n
            invariant
                self.wf(),
                self.persisted() == old(self).persisted(),
                n == self@.inbound.len(),
                n == before.inbound.len(),
                target == before.with_default_room(default_room_id@),
                i <= n,
                self@ == before.with_inbound(self@.inbound),
                forall|j: int| 0 <= j < i ==> self@.inbound[j] == target.inbound[j],
                forall|j: int| i <= j < n ==> self@.inbound[j] == before.inbound[j],
            decreases n - i,
        {
            proof {
                assert(self@.inbound[i as int] == self.inbound@[i as int]@);
            }
            if self.inbound[i].room_id.as_str().is_empty() {
                let mut row = self.inbound[i].copy();
                row.room_id = default_room_id.to_owned();
                self.write_row(i, row);
            }
            i = i + 1;
        }
        proof {
            assert(self@.inbound =~= target.inbound);
        }
    }

    /// The store with the rows read from disk, as they are.
    pub fn restore(stored: Snapshot) -> (r: Result<StateStore, StoreError>)
        ensures
            match r {
                Ok(store) => stored.sound() && store.wf() && store@ == stored.tables()
                    && store.persisted() == stored.tables(),
                Err(error) => error == StoreError::Corrupt && !stored.sound(),
            },
    {
        if !stored.is_sound() {
            return Err(StoreError::Corrupt);
        }
        let ghost tables = stored.tables();
        let store = StateStore {
            inbound: stored.inbound,
            outbound: stored.outbound,
            rooms: stored.rooms,
            proactive: stored.proactive,
            journal: Vec::new(),
            base: Ghost(tables),
        };
        proof {
            assert(change_records(store.journal@) =~= Seq::<ChangeRecord>::empty());
        }
        Ok(store)
    }

    /// Opens the store on the rows read from disk, at time `now`. Rows without a room get the
    /// default room, the allowed rooms are bound, and claims left from before go back to the
    /// queue.
    pub fn open_at(stored: Snapshot, default_room_id: &str, allowed_rooms: &Vec<String>, now: i64)
        -> (r: Result<StateStore, StoreError>)
        ensures
            match r {
                Ok(store) => stored.sound() && store.wf() && store.persisted() == stored.tables()
                    && store@ == stored.tables().opened(
                    default_room_id@,
                    id_texts(allowed_rooms@),
                    now,
                ),
                Err(error) => error == StoreError::Corrupt && !stored.sound(),
            },
    {
        let ghost tables = stored.tables();
        let mut store = match StateStore::restore(stored) {
            Ok(store) => store,
            Err(error) => return Err(error),
        };
        store.fill_rooms(default_room_id);
        let ghost filled = store@;
        let ghost ids = id_texts(allowed_rooms@);
        let mut i: usize = 0;
        while i < allowed_rooms.len()
            invariant
                store.wf(),
                store.persisted() == tables,
                ids == id_texts(allowed_rooms@),
                i <= allowed_rooms@.len(),
                store@ == filled.bind_all(ids.take(i as int), now),
            decreases allowed_rooms@.len() - i,
        {
            proof {
                assert(ids.take(i + 1).drop_last() =~= ids.take(i as int));
                assert(ids.take(i + 1).last() == allowed_rooms@[i as int]@);
            }
            let _ = store.upsert_room_binding_at(allowed_rooms[i].as_str(), None, now);
            i = i + 1;
        }
        proof {
            assert(ids.take(i as int) =~= ids);
        }
        store.requeue_claims();
        Ok(store)
    }

    /// Opens the store on the rows read from disk. The clock is read if there are rooms to bind.
    pub fn open(stored: Snapshot, default_room_id: &str, allowed_rooms: &Vec<String>) -> (r: Result<
        StateStore,
        StoreError,
    >)
        ensures
            match r {
                Ok(store) => stored.sound() && store.wf() && store.persisted() == stored.tables()
                    && exists|now: i64|
                    (clock_gives(now) || allowed_rooms@.len() == 0) && store@
                        == #[trigger] stored.tables().opened(
                        default_room_id@,
                        id_texts(allowed_rooms@),
                        now,
                    ),
                Err(error) => (error == StoreError::Clock && allowed_rooms@.len() > 0
                    && clock_fails()) || (error == StoreError::Corrupt && !stored.sound()),
            },
    {
        if allowed_rooms.len() == 0 {
            return StateStore::open_at(stored, default_room_id, allowed_rooms, 0);
        }
        match reading(now_epoch) {
            Ok(now) => StateStore::open_at(stored, default_room_id, allowed_rooms, now),
            Err(error) => Err(error),
        }
    }
}

impl Snapshot {
    /// The rows of an empty store.
    pub fn empty() -> (r: Snapshot)
        ensures
            r.sound(),
            r.tables() == (Tables {
                inbound: Seq::empty(),
                outbound: Map::empty(),
                rooms: Map::empty(),
                proactive: Map::empty(),
            }),
    {
        let r = Snapshot {
            inbound: Vec::new(),
            outbound: Vec::new(),
            rooms: Vec::new(),
            proactive: Vec::new(),
        };
        proof {
            assert(inbound_records(r.inbound@) =~= Seq::empty());
        }
        r
    }

    /// True when sequence numbers ascend, no event occurs twice and every image can be encoded.
    fn inbound_sound(&self) -> (r: bool)
        ensures
            r == ({
                let rows = inbound_records(self.inbound@);
                &&& forall|i: int, j: int|
                    0 <= i < j < rows.len() ==> (#[trigger] rows[i]).sequence < (
                    #[trigger] rows[j]).sequence
                &&& forall|i: int, j: int|
                    0 <= i < j < rows.len() ==> (#[trigger] rows[i]).event_id != (
                    #[trigger] rows[j]).event_id
                &&& forall|i: int|
                    0 <= i < rows.len() ==> (#[trigger] rows[i]).image_data is Some ==> encodable(
                        rows[i].image_data->0.len(),
                    )
            }),
    {
        let ghost rows = inbound_records(self.inbound@);
        let mut i: usize = 0;
        while i < self.inbound.len()
            invariant
                rows == inbound_records(self.inbound@),
                i <= rows.len(),
                rows.len() == self.inbound@.len(),
                forall|a: int, b: int|
                    0 <= a < b < i ==> (#[trigger] rows[a]).sequence < (
                    #[trigger] rows[b]).sequence,
                forall|a: int, b: int|
                    0 <= a < b < i ==> (#[trigger] rows[a]).event_id != (
                    #[trigger] rows[b]).event_id,
                forall|a: int|
                    0 <= a < i ==> (#[trigger] rows[a]).image_data is Some ==> encodable(
                        rows[a].image_data->0.len(),
                    ),
            decreases rows.len() - i,
        {
            proof {
                assert(rows[i as int] == self.inbound@[i as int]@);
            }
            if i > 0 {
                proof {
                    assert(rows[i - 1] == self.inbound@[i - 1]@);
                }
                if self.inbound[i - 1].sequence >= self.inbound[i].sequence {
                    return false;
                }
                proof {
                    assert forall|a: int| 0 <= a < i implies (#[trigger] rows[a]).sequence
                        < rows[i as int].sequence by {
                        if a < i - 1 {
                            assert(rows[a].sequence < rows[i - 1].sequence);
                        }
                    }
                }
            }
            match &self.inbound[i].image_data {
                Some(data) => {
                    if !fits_base64(data.len()) {
                        return false;
                    }
                },
                None => {},
            }
            let mut j: usize = 0;
            while j < i
                invariant
                    rows == inbound_records(self.inbound@),
                    rows.len() == self.inbound@.len(),
                    j <= i,
                    i < rows.len(),
                    forall|a: int| 0 <= a < j ==> (#[trigger] rows[a]).event_id != rows[i as int].event_id,
                decreases i - j,
            {
                proof {
                    assert(rows[i as int] == self.inbound@[i as int]@);
                    assert(rows[j as int] == self.inbound@[j as int]@);
                }
                if self.inbound[j].event_id == self.inbound[i].event_id {
                    return false;
                }
                j = j + 1;
            }
            i = i + 1;
        }
        true
    }

    /// True when no answer occurs twice.
    fn outbound_sound(&self) -> (r: bool)
        ensures
            r == distinct_keys(outbound_records(self.outbound@)),
    {
        let ghost rows = outbound_records(self.outbound@);
        let mut i: usize = 0;
        while i < self.outbound.len()
            invariant
                rows == outbound_records(self.outbound@),
                i <= rows.len(),
                rows.len() == self.outbound@.len(),
                forall|a: int, b: int|
                    0 <= a < b < i ==> (#[trigger] rows[a]).0 != (#[trigger] rows[b]).0,
            decreases rows.len() - i,
        {
            let mut j: usize = 0;
            while j < i
                invariant
                    rows == outbound_records(self.outbound@),
                    rows.len() == self.outbound@.len(),
                    j <= i,
                    i < rows.len(),
                    forall|a: int| 0 <= a < j ==> (#[trigger] rows[a]).0 != rows[i as int].0,
                decreases i - j,
            {
                proof {
                    assert(rows[i as int] == self.outbound@[i as int]@);
                    assert(rows[j as int] == self.outbound@[j as int]@);
                }
                if self.outbound[j].idempotency_key == self.outbound[i].idempotency_key {
                    return false;
                }
                j = j + 1;
            }
            i = i + 1;
        }
        true
    }

    /// True when no message without a source event occurs twice.
    fn proactive_sound(&self) -> (r: bool)
        ensures
            r == distinct_keys(proactive_records(self.proactive@)),
    {
        let ghost rows = proactive_records(self.proactive@);
        let mut i: usize = 0;
        while i < self.proactive.len()
            invariant
                rows == proactive_records(self.proactive@),
                i <= rows.len(),
                rows.len() == self.proactive@.len(),
                forall|a: int, b: int|
                    0 <= a < b < i ==> (#[trigger] rows[a]).0 != (#[trigger] rows[b]).0,
            decreases rows.len() - i,
        {
            let mut j: usize = 0;
            while j < i
                invariant
                    rows == proactive_records(self.proactive@),
                    rows.len() == self.proactive@.len(),
                    j <= i,
                    i < rows.len(),
                    forall|a: int| 0 <= a < j ==> (#[trigger] rows[a]).0 != rows[i as int].0,
                decreases i - j,
            {
                proof {
                    assert(rows[i as int] == self.proactive@[i as int]@);
                    assert(rows[j as int] == self.proactive@[j as int]@);
                }
                if self.proactive[j].idempotency_key == self.proactive[i].idempotency_key {
                    return false;
                }
                j = j + 1;
            }
            i = i + 1;
        }
        true
    }

    /// True when no room occurs twice and no project has two rooms.
    fn rooms_sound(&self) -> (r: bool)
        ensures
            r == ({
                let rows = room_records(self.rooms@);
                &&& distinct_keys(rows)
                &&& forall|i: int, j: int|
                    0 <= i < j < rows.len() && (#[trigger] rows[i]).1.project_slug is Some
                        ==> rows[i].1.project_slug != (#[trigger] rows[j]).1.project_slug
            }),
    {
        let ghost rows = room_records(self.rooms@);
        let mut i: usize = 0;
        while i < self.rooms.len()
            invariant
                rows == room_records(self.rooms@),
                i <= rows.len(),
                rows.len() == self.rooms@.len(),
                forall|a: int, b: int|
                    0 <= a < b < i ==> (#[trigger] rows[a]).0 != (#[trigger] rows[b]).0,
                forall|a: int, b: int|
                    0 <= a < b < i && (#[trigger] rows[a]).1.project_slug is Some
                        ==> rows[a].1.project_slug != (#[trigger] rows[b]).1.project_slug,
            decreases rows.len() - i,
        {
            let mut j: usize = 0;
            while j < i
                invariant
                    rows == room_records(self.rooms@),
                    rows.len() == self.rooms@.len(),
                    j <= i,
                    i < rows.len(),
                    forall|a: int| 0 <= a < j ==> (#[trigger] rows[a]).0 != rows[i as int].0,
                    forall|a: int|
                        0 <= a < j && (#[trigger] rows[a]).1.project_slug is Some
                            ==> rows[a].1.project_slug != rows[i as int].1.project_slug,
                decreases i - j,
            {
                proof {
                    assert(rows[i as int] == self.rooms@[i as int]@);
                    assert(rows[j as int] == self.rooms@[j as int]@);
                }
                if self.rooms[j].room_id == self.rooms[i].room_id {
                    return false;
                }
                match &self.rooms[j].project_slug {
                    Some(left) => {
                        match &self.rooms[i].project_slug {
                            Some(right) => {
                                if *left == *right {
                                    return false;
                                }
                            },
                            None => {},
                        }
                    },
                    None => {},
                }
                j = j + 1;
            }
            i = i + 1;
        }
        true
    }

    /// True when the rows keep the rules of the tables.
    pub fn is_sound(&self) -> (r: bool)
        ensures
            r == self.sound(),
    {
        let rooms = self.rooms_sound();
        let r = self.inbound_sound() && self.outbound_sound() && self.proactive_sound() && rooms;
        proof {
            let rows = room_records(self.rooms@);
            if distinct_keys(rows) {
                lemma_slugs(rows);
            }
        }
        r
    }
}

/// With distinct keys, distinct projects of the rows are distinct projects of the map.
proof fn lemma_slugs(rows: Seq<(Seq<char>, RoomRecord)>)
    requires
        distinct_keys(rows),
    ensures
        (forall|i: int, j: int|
            0 <= i < j < rows.len() && (#[trigger] rows[i]).1.project_slug is Some
                ==> rows[i].1.project_slug != (#[trigger] rows[j]).1.project_slug) <==> (forall|
            a: Seq<char>,
            b: Seq<char>,
        |
            #![trigger keyed(rows)[a], keyed(rows)[b]]
            keyed(rows).contains_key(a) && keyed(rows).contains_key(b) && a != b
                && keyed(rows)[a].project_slug is Some ==> keyed(rows)[a].project_slug
                != keyed(rows)[b].project_slug),
{
    let rooms = keyed(rows);
    if forall|i: int, j: int|
        0 <= i < j < rows.len() && (#[trigger] rows[i]).1.project_slug is Some
            ==> rows[i].1.project_slug != (#[trigger] rows[j]).1.project_slug {
        assert forall|a: Seq<char>, b: Seq<char>|
            #![trigger rooms[a], rooms[b]]
            rooms.contains_key(a) && rooms.contains_key(b) && a != b
                && rooms[a].project_slug is Some implies rooms[a].project_slug
            != rooms[b].project_slug by {
            lemma_keyed_contains(rows, a);
            lemma_keyed_contains(rows, b);
            let i = choose|i: int| 0 <= i < rows.len() && (#[trigger] rows[i]).0 == a;
            let j = choose|j: int| 0 <= j < rows.len() && (#[trigger] rows[j]).0 == b;
            lemma_keyed_row(rows, i);
            lemma_keyed_row(rows, j);
            if i < j {
                assert(rows[i].1.project_slug != rows[j].1.project_slug);
            } else if rooms[b].project_slug is Some {
                assert(rows[j].1.project_slug != rows[i].1.project_slug);
            }
        }
    }
    if forall|a: Seq<char>, b: Seq<char>|
        #![trigger rooms[a], rooms[b]]
        rooms.contains_key(a) && rooms.contains_key(b) && a != b && rooms[a].project_slug is Some
            ==> rooms[a].project_slug != rooms[b].project_slug {
        assert forall|i: int, j: int|
            0 <= i < j < rows.len() && (
            #[trigger] rows[i]).1.project_slug is Some implies rows[i].1.project_slug != (
        #[trigger] rows[j]).1.project_slug by {
            lemma_keyed_row(rows, i);
            lemma_keyed_row(rows, j);
            assert(rows[i].0 != rows[j].0);
            assert(rooms[rows[i].0].project_slug != rooms[rows[j].0].project_slug);
        }
    }
}

/// Binding a room to a project that no other room has keeps the tables valid.
proof fn lemma_bound_valid(tables: Tables, room_id: Seq<char>, record: RoomRecord)
    requires
        tables.valid(),
        !tables.slug_taken(room_id, record.project_slug),
    ensures
        (Tables { rooms: tables.rooms.insert(room_id, record), ..tables }).valid(),
{
    let rooms = tables.rooms.insert(room_id, record);
    assert forall|a: Seq<char>, b: Seq<char>|
        #![trigger rooms[a], rooms[b]]
        rooms.contains_key(a) && rooms.contains_key(b) && a != b
            && rooms[a].project_slug is Some implies rooms[a].project_slug
        != rooms[b].project_slug by {
        if a == room_id {
            assert(tables.rooms[b].project_slug != record.project_slug);
        } else if b == room_id {
            if record.project_slug is Some {
                assert(tables.rooms[a].project_slug != record.project_slug);
            }
        } else {
            assert(tables.rooms[a].project_slug != tables.rooms[b].project_slug);
        }
    }
}

/// The event that an optional answer holds.
pub open spec fn option_event(value: Option<InboundEvent>) -> Option<EventView> {
    match value {
        Some(event) => Some(event@),
        None => None,
    }
}

/// The name of a kind of event.
pub fn kind_name(kind: EventKind) -> (r: String)
    ensures
        r@ == kind_label(kind),
{
    match kind {
        EventKind::Text => "text".to_owned(),
        EventKind::Voice => "voice".to_owned(),
        EventKind::Image => "image".to_owned(),
    }
}

} // verus!
