//! The rows of the store and the events it hands out.

use vstd::prelude::*;

use crate::model::{
    ChangeRecord, EventView, ImageView, InboundRecord, OutboundRecord, ProactiveRecord, RoomRecord,
};
use crate::text::{copy_option, option_text};

verus! {

/// Why the store refused an operation.
#[derive(Clone, Copy, Debug, PartialEq, Eq, Structural)]
pub enum StoreError {
    /// Event id, room id, body, kind and image fields do not fit together.
    InvalidEvent,
    /// An event without an image must be text or voice.
    InvalidKind,
    /// Media type and bytes of an image must not be empty.
    InvalidImage,
    /// Another room has the project already.
    SlugTaken,
    /// The source event is not claimed.
    NotClaimed,
    /// No sequence number is left.
    SequenceExhausted,
    /// The stored rows break a rule of the tables.
    Corrupt,
    /// The system clock stands before 1970.
    Clock,
}

/// What an inbound event carries.
#[derive(Clone, Copy, Debug, PartialEq, Eq, Structural)]
pub enum EventKind {
    Text,
    Voice,
    Image,
}

/// Where an inbound event stands.
#[derive(Clone, Copy, Debug, PartialEq, Eq, Structural)]
pub enum EventState {
    Queued,
    Claimed,
    Completed,
}

/// The image of an event, as base64 text.
#[derive(Clone, Debug, PartialEq, Eq)]
pub struct InboundImage {
    pub media_type: String,
    pub data: String,
}

/// An event as it is handed out.
#[derive(Clone, Debug, PartialEq, Eq)]
pub struct InboundEvent {
    pub event_id: String,
    pub room_id: String,
    pub body: String,
    pub kind: String,
    pub image: Option<InboundImage>,
}

/// A project and the room bound to it.
#[derive(Clone, Debug, PartialEq, Eq)]
pub struct ProjectRoomBinding {
    pub project_slug: String,
    pub room_id: String,
}

/// Where an event came from and what it carried.
#[derive(Clone, Debug, PartialEq, Eq)]
pub struct SourceEventContext {
    pub room_id: String,
    pub kind: String,
}

/// A row of the inbound table.
#[derive(Debug, PartialEq, Eq)]
pub struct InboundRow {
    pub sequence: i64,
    pub event_id: String,
    pub room_id: String,
    pub body: String,
    pub kind: EventKind,
    pub state: EventState,
    pub received_at: i64,
    pub claimed_at: Option<i64>,
    pub outbound_event_id: Option<String>,
    pub image_mime: Option<String>,
    pub image_data: Option<Vec<u8>>,
}

/// A row of the outbound table.
#[derive(Debug, PartialEq, Eq)]
pub struct OutboundRow {
    pub idempotency_key: String,
    pub source_event_id: String,
    pub matrix_event_id: String,
    pub sent_at: i64,
}

/// A row of the room table.
#[derive(Debug, PartialEq, Eq)]
pub struct RoomRow {
    pub room_id: String,
    pub enabled: bool,
    pub project_slug: Option<String>,
    pub created_at: i64,
    pub updated_at: i64,
}

/// A row of the table of messages that answer no event.
#[derive(Debug, PartialEq, Eq)]
pub struct ProactiveRow {
    pub idempotency_key: String,
    pub matrix_event_id: String,
    pub sent_at: i64,
}

/// All rows, as they are read from disk.
#[derive(Debug, PartialEq, Eq)]
pub struct Snapshot {
    /// In ascending order of the sequence numbers.
    pub inbound: Vec<InboundRow>,
    pub outbound: Vec<OutboundRow>,
    pub rooms: Vec<RoomRow>,
    pub proactive: Vec<ProactiveRow>,
}

/// One row to write, or to remove, on disk.
#[derive(Debug, PartialEq, Eq)]
pub enum Change {
    /// Write the row over the one with its sequence number, or add it.
    Inbound(InboundRow),
    /// Add the row.
    Outbound(OutboundRow),
    /// Write the row over the one with its room id, or add it.
    Room(RoomRow),
    /// Remove the row of this room.
    RoomRemoved(String),
    /// Add the row.
    Proactive(ProactiveRow),
}

impl View for InboundImage {
    type V = ImageView;

    open spec fn view(&self) -> ImageView {
        ImageView { media_type: self.media_type@, data: self.data@ }
    }
}

impl View for InboundEvent {
    type V = EventView;

    open spec fn view(&self) -> EventView {
        EventView {
            event_id: self.event_id@,
            room_id: self.room_id@,
            body: self.body@,
            kind: self.kind@,
            image: match self.image {
                Some(image) => Some(image@),
                None => None,
            },
        }
    }
}

impl View for ProjectRoomBinding {
    type V = (Seq<char>, Seq<char>);

    /// Project and room.
    open spec fn view(&self) -> (Seq<char>, Seq<char>) {
        (self.project_slug@, self.room_id@)
    }
}

impl View for SourceEventContext {
    type V = (Seq<char>, Seq<char>);

    /// Room and kind.
    open spec fn view(&self) -> (Seq<char>, Seq<char>) {
        (self.room_id@, self.kind@)
    }
}

/// The bytes that an optional vector holds.
pub open spec fn option_bytes(value: Option<Vec<u8>>) -> Option<Seq<u8>> {
    match value {
        Some(bytes) => Some(bytes@),
        None => None,
    }
}

impl View for InboundRow {
    type V = InboundRecord;

    open spec fn view(&self) -> InboundRecord {
        InboundRecord {
            sequence: self.sequence,
            event_id: self.event_id@,
            room_id: self.room_id@,
            body: self.body@,
            kind: self.kind,
            state: self.state,
            received_at: self.received_at,
            claimed_at: self.claimed_at,
            outbound_event_id: option_text(self.outbound_event_id),
            image_mime: option_text(self.image_mime),
            image_data: option_bytes(self.image_data),
        }
    }
}

impl View for OutboundRow {
    type V = (Seq<char>, OutboundRecord);

    /// The key and what is kept under it.
    open spec fn view(&self) -> (Seq<char>, OutboundRecord) {
        (
            self.idempotency_key@,
            OutboundRecord {
                source_event_id: self.source_event_id@,
                matrix_event_id: self.matrix_event_id@,
                sent_at: self.sent_at,
            },
        )
    }
}

impl View for RoomRow {
    type V = (Seq<char>, RoomRecord);

    /// The room and what is kept of it.
    open spec fn view(&self) -> (Seq<char>, RoomRecord) {
        (
            self.room_id@,
            RoomRecord {
                enabled: self.enabled,
                project_slug: option_text(self.project_slug),
                created_at: self.created_at,
                updated_at: self.updated_at,
            },
        )
    }
}

impl View for ProactiveRow {
    type V = (Seq<char>, ProactiveRecord);

    /// The key and what is kept under it.
    open spec fn view(&self) -> (Seq<char>, ProactiveRecord) {
        (
            self.idempotency_key@,
            ProactiveRecord { matrix_event_id: self.matrix_event_id@, sent_at: self.sent_at },
        )
    }
}

impl View for Change {
    type V = ChangeRecord;

    open spec fn view(&self) -> ChangeRecord {
        match self {
            Change::Inbound(row) => ChangeRecord::Inbound(row@),
            Change::Outbound(row) => ChangeRecord::Outbound(row@.0, row@.1),
            Change::Room(row) => ChangeRecord::Room(row@.0, row@.1),
            Change::RoomRemoved(room_id) => ChangeRecord::RoomRemoved(room_id@),
            Change::Proactive(row) => ChangeRecord::Proactive(row@.0, row@.1),
        }
    }
}

/// A copy of optional bytes.
pub fn copy_bytes(value: &Option<Vec<u8>>) -> (r: Option<Vec<u8>>)
    ensures
        option_bytes(r) == option_bytes(*value),
{
    match value {
        Some(bytes) => {
            let copy = bytes.clone();
            proof {
                assert(copy@ =~= bytes@);
            }
            Some(copy)
        },
        None => None,
    }
}

impl InboundRow {
    /// A copy of the row.
    pub fn copy(&self) -> (r: InboundRow)
        ensures
            r@ == self@,
    {
        InboundRow {
            sequence: self.sequence,
            event_id: self.event_id.clone(),
            room_id: self.room_id.clone(),
            body: self.body.clone(),
            kind: self.kind,
            state: self.state,
            received_at: self.received_at,
            claimed_at: self.claimed_at,
            outbound_event_id: copy_option(&self.outbound_event_id),
            image_mime: copy_option(&self.image_mime),
            image_data: copy_bytes(&self.image_data),
        }
    }
}

impl RoomRow {
    /// A copy of the row.
    pub fn copy(&self) -> (r: RoomRow)
        ensures
            r@ == self@,
    {
        RoomRow {
            room_id: self.room_id.clone(),
            enabled: self.enabled,
            project_slug: copy_option(&self.project_slug),
            created_at: self.created_at,
            updated_at: self.updated_at,
        }
    }
}

impl OutboundRow {
    /// A copy of the row.
    pub fn copy(&self) -> (r: OutboundRow)
        ensures
            r@ == self@,
    {
        OutboundRow {
            idempotency_key: self.idempotency_key.clone(),
            source_event_id: self.source_event_id.clone(),
            matrix_event_id: self.matrix_event_id.clone(),
            sent_at: self.sent_at,
        }
    }
}

impl ProactiveRow {
    /// A copy of the row.
    pub fn copy(&self) -> (r: ProactiveRow)
        ensures
            r@ == self@,
    {
        ProactiveRow {
            idempotency_key: self.idempotency_key.clone(),
            matrix_event_id: self.matrix_event_id.clone(),
            sent_at: self.sent_at,
        }
    }
}

} // verus!
