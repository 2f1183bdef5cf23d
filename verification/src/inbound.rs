//! What is taken in: which events are admitted, and what of each is queued.

use std::string::FromUtf8Error;

use vstd::prelude::*;
use vstd::utf8::{decode_utf8, valid_utf8};

use crate::clock::{clock_fails, clock_gives, now_epoch, reading};
use crate::exchange::MAX_MESSAGE_CHARS;
use crate::model::{find_event, lemma_find_event, Tables};
use crate::outbound::MAX_AUDIO_BYTES;
use crate::records::{EventKind, EventState, StoreError};
use crate::store::StateStore;
use crate::text::{
    is_blank, is_white, option_text, same_text, starts_with, text_has_prefix, to_chars, trim,
    trim_end, trim_start, trim_text,
};

verus! {

broadcast use vstd::string::group_string_axioms;

/// Longest audio message that is taken in, in seconds.
pub const MAX_AUDIO_SECONDS: u64 = 300;

/// Most bytes that a transcript may have.
pub const MAX_TRANSCRIPT_BYTES: usize = 65_536;

/// Largest image that is taken in, in bytes.
pub const MAX_IMAGE_BYTES: usize = 26_214_400;

/// `std::string::FromUtf8Error`.
#[verifier::external_type_specification]
#[verifier::external_body]
pub struct ExFromUtf8Error(FromUtf8Error);

/// `String::from_utf8`: the text that the bytes encode, or an error when they are not UTF-8.
pub assume_specification[ String::from_utf8 ](vec: Vec<u8>) -> (r: Result<String, FromUtf8Error>)
    ensures
        match r {
            Ok(text) => valid_utf8(vec@) && text@ == decode_utf8(vec@),
            Err(_) => !valid_utf8(vec@),
        },
;

// ---------------------------------------------------------------------------
// Admission
// ---------------------------------------------------------------------------

/// Where a message comes from.
#[derive(Debug)]
pub struct Arrival {
    pub event_id: String,
    pub room_id: String,
    pub sender: String,
    /// The account itself.
    pub own_user: String,
    /// The room is joined.
    pub joined: bool,
    /// The room is known to be encrypted.
    pub encrypted: bool,
    /// The message is a reply, an edit, a reaction or part of a thread.
    pub related: bool,
}

/// Where a message comes from.
#[verifier::ext_equal]
pub struct ArrivalView {
    pub event_id: Seq<char>,
    pub room_id: Seq<char>,
    pub sender: Seq<char>,
    pub own_user: Seq<char>,
    pub joined: bool,
    pub encrypted: bool,
    pub related: bool,
}

impl View for Arrival {
    type V = ArrivalView;

    open spec fn view(&self) -> ArrivalView {
        ArrivalView {
            event_id: self.event_id@,
            room_id: self.room_id@,
            sender: self.sender@,
            own_user: self.own_user@,
            joined: self.joined,
            encrypted: self.encrypted,
            related: self.related,
        }
    }
}

/// True for a message of its own, in a joined room, from the allowed sender, who is not the
/// account itself.
pub open spec fn from_allowed_sender(arrival: ArrivalView, allowed_sender: Seq<char>) -> bool {
    &&& arrival.joined
    &&& arrival.sender == allowed_sender
    &&& arrival.sender != arrival.own_user
    &&& !arrival.related
}

/// True for a message that is admitted: from the allowed sender, encrypted, in an enabled room,
/// and not known already.
pub open spec fn admitted(tables: Tables, arrival: ArrivalView, allowed_sender: Seq<char>) -> bool {
    &&& from_allowed_sender(arrival, allowed_sender)
    &&& arrival.encrypted
    &&& tables.room_enabled(arrival.room_id)
    &&& !tables.contains_event(arrival.event_id)
}

/// True for a message of its own, in a joined room, from the allowed sender, who is not the
/// account itself.
pub fn sender_allowed(arrival: &Arrival, allowed_sender: &str) -> (r: bool)
    ensures
        r == from_allowed_sender(arrival@, allowed_sender@),
{
    arrival.joined && same_text(arrival.sender.as_str(), allowed_sender) && !same_text(
        arrival.sender.as_str(),
        arrival.own_user.as_str(),
    ) && !arrival.related
}

/// True for a message that is admitted.
pub fn admits(store: &StateStore, arrival: &Arrival, allowed_sender: &str) -> (r: bool)
    requires
        store.wf(),
    ensures
        r == admitted(store@, arrival@, allowed_sender@),
{
    sender_allowed(arrival, allowed_sender) && arrival.encrypted && store.room_enabled(
        arrival.room_id.as_str(),
    ) && !store.contains_event(arrival.event_id.as_str())
}

// ---------------------------------------------------------------------------
// Audio
// ---------------------------------------------------------------------------

/// What a message says of the audio that it carries.
#[derive(Debug)]
pub struct AudioInfo {
    /// Whole seconds and further nanoseconds.
    pub duration: Option<(u64, u32)>,
    pub size: Option<u64>,
    pub mimetype: Option<String>,
}

/// True for audio that may be fetched, by what is said of it: at most five minutes and at most
/// the size limit, and audio by its type. What is not said rules nothing out.
pub open spec fn audio_info_ok(
    duration: Option<(u64, u32)>,
    size: Option<u64>,
    mimetype: Option<Seq<char>>,
) -> bool {
    &&& duration matches Some((seconds, nanos)) ==> seconds < MAX_AUDIO_SECONDS || (seconds
        == MAX_AUDIO_SECONDS && nanos == 0)
    &&& size matches Some(bytes) ==> bytes <= MAX_AUDIO_BYTES
    &&& mimetype matches Some(name) ==> starts_with(name, "audio/"@)
}

/// True for audio that may be fetched, by what is said of it.
pub fn audio_info_allowed(info: &AudioInfo) -> (r: bool)
    ensures
        r == audio_info_ok(info.duration, info.size, option_text(info.mimetype)),
{
    if let Some((seconds, nanos)) = info.duration {
        if seconds > MAX_AUDIO_SECONDS || (seconds == MAX_AUDIO_SECONDS && nanos > 0) {
            return false;
        }
    }
    if let Some(bytes) = info.size {
        if bytes > MAX_AUDIO_BYTES as u64 {
            return false;
        }
    }
    match &info.mimetype {
        Some(name) => text_has_prefix(name.as_str(), "audio/"),
        None => true,
    }
}

/// Why the transcriber's output cannot be used.
#[derive(Clone, Copy, Debug, PartialEq, Eq, Structural)]
pub enum TranscriptError {
    /// The transcriber failed, or wrote more than a transcript may have.
    Failed,
    /// The output is not UTF-8.
    NotText,
}

/// True for a text that may be queued: not blank, and within the limit once trimmed.
pub open spec fn queueable(text: Seq<char>) -> bool {
    0 < trim(text).len() <= MAX_MESSAGE_CHARS
}

/// The transcript in the transcriber's output: the trimmed text, or nothing when it is blank or
/// too long.
pub open spec fn transcript(success: bool, output: Seq<u8>) -> Result<
    Option<Seq<char>>,
    TranscriptError,
> {
    if !success || output.len() > MAX_TRANSCRIPT_BYTES {
        Err(TranscriptError::Failed)
    } else if !valid_utf8(output) {
        Err(TranscriptError::NotText)
    } else if !queueable(decode_utf8(output)) {
        Ok(None)
    } else {
        Ok(Some(trim(decode_utf8(output))))
    }
}

/// What a transcript says.
pub open spec fn transcript_view(value: Result<Option<String>, TranscriptError>) -> Result<
    Option<Seq<char>>,
    TranscriptError,
> {
    match value {
        Ok(text) => Ok(option_text(text)),
        Err(error) => Err(error),
    }
}

/// The text as it may be queued: trimmed, or nothing when it is blank or too long.
pub fn bounded_text(text: &str) -> (r: Option<String>)
    ensures
        option_text(r) == if queueable(text@) {
            Some(trim(text@))
        } else {
            None
        },
        r is Some <==> 0 < trim(text@).len() <= 16_000,
{
    let trimmed = trim_text(text);
    let n: usize = to_chars(trimmed.as_str()).len();
    if n == 0 || n > MAX_MESSAGE_CHARS {
        None
    } else {
        Some(trimmed)
    }
}

/// The transcript in the transcriber's output.
pub fn transcript_of(success: bool, output: Vec<u8>) -> (r: Result<Option<String>, TranscriptError>)
    ensures
        transcript_view(r) == transcript(success, output@),
{
    if !success || output.len() > MAX_TRANSCRIPT_BYTES {
        return Err(TranscriptError::Failed);
    }
    match String::from_utf8(output) {
        Ok(text) => Ok(bounded_text(text.as_str())),
        Err(_) => Err(TranscriptError::NotText),
    }
}

/// The text queued for a voice message: its transcript, or a request to send it again.
pub open spec fn voice_text(transcript: Option<Seq<char>>) -> Seq<char> {
    match transcript {
        Some(text) => text,
        None => "I could not transcribe this Matrix voice message. Please resend it."@,
    }
}

// ---------------------------------------------------------------------------
// Images
// ---------------------------------------------------------------------------

/// True when the bytes begin with the given ones at position `at`.
pub open spec fn bytes_at(data: Seq<u8>, at: int, wanted: Seq<u8>) -> bool {
    at + wanted.len() <= data.len() && data.subrange(at, at + wanted.len()) == wanted
}

/// The media type that the signature of an image file shows.
pub open spec fn image_type(data: Seq<u8>) -> Option<Seq<char>> {
    if bytes_at(data, 0, seq![0xFFu8, 0xD8, 0xFF]) {
        Some("image/jpeg"@)
    } else if bytes_at(data, 0, seq![0x89u8, 0x50, 0x4E, 0x47, 0x0D, 0x0A, 0x1A, 0x0A]) {
        Some("image/png"@)
    } else if bytes_at(data, 0, seq![0x47u8, 0x49, 0x46, 0x38, 0x37, 0x61]) || bytes_at(
        data,
        0,
        seq![0x47u8, 0x49, 0x46, 0x38, 0x39, 0x61],
    ) {
        Some("image/gif"@)
    } else if bytes_at(data, 0, seq![0x52u8, 0x49, 0x46, 0x46]) && bytes_at(
        data,
        8,
        seq![0x57u8, 0x45, 0x42, 0x50],
    ) {
        Some("image/webp"@)
    } else {
        None
    }
}

/// The media type under which an image is queued: the one its signature shows, unless the image
/// is empty or too large, or is said to be of another type.
pub open spec fn image_media_type(declared: Option<Seq<char>>, data: Seq<u8>) -> Option<Seq<char>> {
    match image_type(data) {
        Some(shown) if data.len() <= MAX_IMAGE_BYTES && (declared matches Some(said) ==> said
            == shown) => Some(shown),
        _ => None,
    }
}

/// True for an image that may be fetched, by what is said of it: of one of the four types and
/// within the size limit. What is not said rules nothing out.
pub open spec fn image_info_ok(size: Option<u64>, mimetype: Option<Seq<char>>) -> bool {
    &&& size matches Some(bytes) ==> bytes <= MAX_IMAGE_BYTES
    &&& mimetype matches Some(name) ==> name == "image/jpeg"@ || name == "image/png"@ || name
        == "image/gif"@ || name == "image/webp"@
}

/// True for an image that may be fetched, by what is said of it.
pub fn image_info_allowed(size: Option<u64>, mimetype: &Option<String>) -> (r: bool)
    ensures
        r == image_info_ok(size, option_text(*mimetype)),
{
    if let Some(bytes) = size {
        if bytes > MAX_IMAGE_BYTES as u64 {
            return false;
        }
    }
    match mimetype {
        Some(name) => same_text(name.as_str(), "image/jpeg") || same_text(
            name.as_str(),
            "image/png",
        ) || same_text(name.as_str(), "image/gif") || same_text(name.as_str(), "image/webp"),
        None => true,
    }
}

fn has_bytes_at(data: &[u8], at: usize, wanted: &[u8]) -> (r: bool)
    ensures
        r == bytes_at(data@, at as int, wanted@),
{
    if at > data.len() || wanted.len() > data.len() - at {
        return false;
    }
    let mut i: usize = 0;
    while i < wanted.len()
        invariant
            at + wanted@.len() <= data@.len(),
            data@.len() <= usize::MAX,
            i <= wanted@.len(),
            forall|j: int| 0 <= j < i ==> data@[at + j] == #[trigger] wanted@[j],
        decreases wanted@.len() - i,
    {
        if data[at + i] != wanted[i] {
            proof {
                assert(data@.subrange(at as int, at + wanted@.len())[i as int] == data@[at + i]);
            }
            return false;
        }
        i = i + 1;
    }
    proof {
        assert(data@.subrange(at as int, at + wanted@.len()) =~= wanted@);
    }
    true
}

/// The media type that the signature of an image file shows.
pub fn sniffed_type(data: &[u8]) -> (r: Option<&'static str>)
    ensures
        match r {
            Some(name) => image_type(data@) == Some(name@),
            None => image_type(data@) is None,
        },
{
    let jpeg: [u8; 3] = [0xFF, 0xD8, 0xFF];
    let png: [u8; 8] = [0x89, 0x50, 0x4E, 0x47, 0x0D, 0x0A, 0x1A, 0x0A];
    let gif_old: [u8; 6] = [0x47, 0x49, 0x46, 0x38, 0x37, 0x61];
    let gif_new: [u8; 6] = [0x47, 0x49, 0x46, 0x38, 0x39, 0x61];
    let riff: [u8; 4] = [0x52, 0x49, 0x46, 0x46];
    let webp: [u8; 4] = [0x57, 0x45, 0x42, 0x50];
    proof {
        assert(jpeg@ =~= seq![0xFFu8, 0xD8, 0xFF]);
        assert(png@ =~= seq![0x89u8, 0x50, 0x4E, 0x47, 0x0D, 0x0A, 0x1A, 0x0A]);
        assert(gif_old@ =~= seq![0x47u8, 0x49, 0x46, 0x38, 0x37, 0x61]);
        assert(gif_new@ =~= seq![0x47u8, 0x49, 0x46, 0x38, 0x39, 0x61]);
        assert(riff@ =~= seq![0x52u8, 0x49, 0x46, 0x46]);
        assert(webp@ =~= seq![0x57u8, 0x45, 0x42, 0x50]);
    }
    if has_bytes_at(data, 0, &jpeg) {
        Some("image/jpeg")
    } else if has_bytes_at(data, 0, &png) {
        Some("image/png")
    } else if has_bytes_at(data, 0, &gif_old) || has_bytes_at(data, 0, &gif_new) {
        Some("image/gif")
    } else if has_bytes_at(data, 0, &riff) && has_bytes_at(data, 8, &webp) {
        Some("image/webp")
    } else {
        None
    }
}

// ---------------------------------------------------------------------------
// Acceptance
// ---------------------------------------------------------------------------

/// What a message carries, as far as it could be read.
#[derive(Debug)]
pub enum Content {
    Text { body: String },
    /// Audio, with its transcript if there is one.
    Voice { transcript: Option<String> },
    /// An image with its caption, the type it is said to have, and its bytes.
    Image { caption: String, declared: Option<String>, data: Vec<u8> },
    Other,
}

/// What a message carries.
pub enum ContentView {
    Text { body: Seq<char> },
    Voice { transcript: Option<Seq<char>> },
    Image { caption: Seq<char>, declared: Option<Seq<char>>, data: Seq<u8> },
    Other,
}

impl View for Content {
    type V = ContentView;

    open spec fn view(&self) -> ContentView {
        match self {
            Content::Text { body } => ContentView::Text { body: body@ },
            Content::Voice { transcript } => ContentView::Voice {
                transcript: option_text(*transcript),
            },
            Content::Image { caption, declared, data } => ContentView::Image {
                caption: caption@,
                declared: option_text(*declared),
                data: data@,
            },
            Content::Other => ContentView::Other,
        }
    }
}

/// What became of a message.
#[derive(Clone, Copy, Debug, PartialEq, Eq, Structural)]
pub enum Acceptance {
    /// It is not one that is taken in.
    Ignored,
    /// It is queued.
    Queued,
    /// It is known already.
    Known,
    /// It could not be queued.
    Failed,
}

/// True for content that is fit for the queue: a text within the limit, any audio, or an image
/// of a known type with a caption within the limit.
pub open spec fn fit(content: ContentView) -> bool {
    match content {
        ContentView::Text { body } => queueable(body),
        ContentView::Voice { .. } => true,
        ContentView::Image { caption, declared, data } => image_media_type(declared, data) is Some
            && queueable(caption),
        ContentView::Other => false,
    }
}

/// What an attempt to queue a message means.
pub open spec fn acceptance(result: Result<bool, StoreError>) -> Acceptance {
    match result {
        Ok(true) => Acceptance::Queued,
        Ok(false) => Acceptance::Known,
        Err(_) => Acceptance::Failed,
    }
}

/// Taking in a message at time `now`: one that is not admitted, or whose content is not fit for
/// the queue, is ignored.
pub open spec fn accepted(
    tables: Tables,
    arrival: ArrivalView,
    allowed_sender: Seq<char>,
    content: ContentView,
    now: i64,
) -> (Tables, Acceptance) {
    let event_id = arrival.event_id;
    let room_id = arrival.room_id;
    if !admitted(tables, arrival, allowed_sender) || !fit(content) {
        (tables, Acceptance::Ignored)
    } else {
        let (after, result) = match content {
            ContentView::Text { body } => tables.enqueue_plain(
                event_id,
                room_id,
                trim(body),
                "text"@,
                now,
            ),
            ContentView::Voice { transcript } => tables.enqueue_plain(
                event_id,
                room_id,
                voice_text(transcript),
                "voice"@,
                now,
            ),
            ContentView::Image { caption, declared, data } => tables.enqueue_image(
                event_id,
                room_id,
                trim(caption),
                image_media_type(declared, data)->0,
                data,
                now,
            ),
            ContentView::Other => (tables, Ok(false)),
        };
        (after, acceptance(result))
    }
}

/// The media type under which an image is queued.
pub fn queued_image_type(declared: &Option<String>, data: &[u8]) -> (r: Option<&'static str>)
    ensures
        match r {
            Some(name) => image_media_type(option_text(*declared), data@) == Some(name@),
            None => image_media_type(option_text(*declared), data@) is None,
        },
{
    if data.len() > MAX_IMAGE_BYTES {
        return None;
    }
    match sniffed_type(data) {
        Some(shown) => {
            let agrees = match declared {
                Some(said) => same_text(said.as_str(), shown),
                None => true,
            };
            if agrees {
                Some(shown)
            } else {
                None
            }
        },
        None => None,
    }
}

fn is_fit(content: &Content) -> (r: bool)
    ensures
        r == fit(content@),
{
    match content {
        Content::Text { body } => bounded_text(body.as_str()).is_some(),
        Content::Voice { .. } => true,
        Content::Image { caption, declared, data } => queued_image_type(
            declared,
            data.as_slice(),
        ).is_some() && bounded_text(caption.as_str()).is_some(),
        Content::Other => false,
    }
}

fn outcome_of(result: Result<bool, StoreError>) -> (r: Acceptance)
    ensures
        r == acceptance(result),
{
    match result {
        Ok(true) => Acceptance::Queued,
        Ok(false) => Acceptance::Known,
        Err(_) => Acceptance::Failed,
    }
}

/// Takes in a message at time `now`.
pub fn accept_at(
    store: &mut StateStore,
    arrival: &Arrival,
    allowed_sender: &str,
    content: &Content,
    now: i64,
) -> (r: Acceptance)
    requires
        old(store).wf(),
    ensures
        final(store).wf(),
        final(store).persisted() == old(store).persisted(),
        (final(store)@, r) == accepted(old(store)@, arrival@, allowed_sender@, content@, now),
{
    if !admits(store, arrival, allowed_sender) {
        return Acceptance::Ignored;
    }
    let event_id = arrival.event_id.as_str();
    let room_id = arrival.room_id.as_str();
    match content {
        Content::Text { body } => match bounded_text(body.as_str()) {
            Some(text) => outcome_of(
                store.enqueue_at(event_id, room_id, text.as_str(), "text", now),
            ),
            None => Acceptance::Ignored,
        },
        Content::Voice { transcript } => {
            let text = match transcript {
                Some(text) => text.as_str(),
                None => "I could not transcribe this Matrix voice message. Please resend it.",
            };
            outcome_of(store.enqueue_at(event_id, room_id, text, "voice", now))
        },
        Content::Image { caption, declared, data } => {
            match (queued_image_type(declared, data.as_slice()), bounded_text(caption.as_str())) {
                (Some(media_type), Some(text)) => outcome_of(
                    store.enqueue_image_at(
                        event_id,
                        room_id,
                        text.as_str(),
                        media_type,
                        data.as_slice(),
                        now,
                    ),
                ),
                _ => Acceptance::Ignored,
            }
        },
        Content::Other => Acceptance::Ignored,
    }
}

/// Takes in a message now. When the clock cannot be read, a message that would be queued is not.
pub fn accept(
    store: &mut StateStore,
    arrival: &Arrival,
    allowed_sender: &str,
    content: &Content,
) -> (r: Acceptance)
    requires
        old(store).wf(),
    ensures
        final(store).wf(),
        final(store).persisted() == old(store).persisted(),
        ({
            let needs_clock = admitted(old(store)@, arrival@, allowed_sender@) && fit(content@);
            ||| exists|now: i64|
                clock_gives(now) && (final(store)@, r) == #[trigger] accepted(
                    old(store)@,
                    arrival@,
                    allowed_sender@,
                    content@,
                    now,
                )
            ||| r == Acceptance::Failed && *final(store) == *old(store) && needs_clock
                && clock_fails()
            ||| !needs_clock && forall|now: i64|
                (final(store)@, r) == #[trigger] accepted(
                    old(store)@,
                    arrival@,
                    allowed_sender@,
                    content@,
                    now,
                )
        }),
{
    if !admits(store, arrival, allowed_sender) || !is_fit(content) {
        return Acceptance::Ignored;
    }
    match reading(now_epoch) {
        Ok(now) => accept_at(store, arrival, allowed_sender, content, now),
        Err(_) => Acceptance::Failed,
    }
}

// ---------------------------------------------------------------------------
// What holds of all that is taken in
// ---------------------------------------------------------------------------

/// Only a message of the allowed sender, in an encrypted and enabled room, that is not known
/// already and whose content is fit, is queued. Any other leaves the queue as it is.
pub proof fn law_only_admitted_messages_are_queued(
    tables: Tables,
    arrival: ArrivalView,
    allowed_sender: Seq<char>,
    content: ContentView,
    now: i64,
)
    requires
        !admitted(tables, arrival, allowed_sender) || !fit(content),
    ensures
        accepted(tables, arrival, allowed_sender, content, now) == (tables, Acceptance::Ignored),
{
}

/// An admitted message that is fit is queued, unless sequence numbers have run out. A transcript
/// counts as fit when it is not blank.
pub proof fn law_fit_messages_are_queued(
    tables: Tables,
    arrival: ArrivalView,
    allowed_sender: Seq<char>,
    content: ContentView,
    now: i64,
)
    requires
        admitted(tables, arrival, allowed_sender),
        fit(content),
        content matches ContentView::Voice { transcript: Some(text) } ==> !is_blank(text),
        arrival.event_id.len() > 0,
        arrival.room_id.len() > 0,
        tables.next_sequence() <= i64::MAX,
    ensures
        accepted(tables, arrival, allowed_sender, content, now).1 == Acceptance::Queued,
        ({
            let after = accepted(tables, arrival, allowed_sender, content, now).0;
            let row = after.inbound.last();
            &&& after.inbound.drop_last() == tables.inbound
            &&& row.event_id == arrival.event_id
            &&& row.room_id == arrival.room_id
            &&& row.state == EventState::Queued
            &&& match content {
                ContentView::Text { body } => row.kind == EventKind::Text && row.body == trim(body),
                ContentView::Voice { transcript } => row.kind == EventKind::Voice && row.body
                    == voice_text(transcript),
                ContentView::Image { caption, data, .. } => row.kind == EventKind::Image && row.body
                    == trim(caption) && row.image_mime == image_type(data) && row.image_data
                    == Some(data),
                ContentView::Other => true,
            }
        }),
{
    lemma_resend_message();
    match content {
        ContentView::Text { body } => {
            lemma_trim_twice(body);
        },
        ContentView::Image { caption, data, .. } => {
            lemma_trim_twice(caption);
            lemma_image_type_named(data);
        },
        _ => {},
    }
    reveal_strlit("text");
    reveal_strlit("voice");
    assert("text"@.len() != "voice"@.len());
    let after = accepted(tables, arrival, allowed_sender, content, now).0;
    assert(after.inbound.drop_last() =~= tables.inbound);
}

proof fn lemma_resend_message()
    ensures
        !is_blank("I could not transcribe this Matrix voice message. Please resend it."@),
{
    reveal_strlit("I could not transcribe this Matrix voice message. Please resend it.");
    let s = "I could not transcribe this Matrix voice message. Please resend it."@;
    assert(s[0] == 'I');
    assert(s.last() == '.');
    assert(!is_white(s[0]));
    assert(!is_white(s.last()));
}

proof fn lemma_trim_start_ink(s: Seq<char>)
    ensures
        trim_start(s).len() > 0 ==> !is_white(trim_start(s)[0]),
    decreases s.len(),
{
    if s.len() > 0 && is_white(s[0]) {
        lemma_trim_start_ink(s.skip(1));
    }
}

proof fn lemma_trim_end_ink(s: Seq<char>)
    ensures
        trim_end(s).len() > 0 ==> !is_white(trim_end(s).last()) && trim_end(s)[0] == s[0],
    decreases s.len(),
{
    if s.len() > 0 && is_white(s.last()) {
        lemma_trim_end_ink(s.drop_last());
    }
}

/// Trimming a second time changes nothing.
proof fn lemma_trim_twice(s: Seq<char>)
    ensures
        trim(trim(s)) == trim(s),
{
    lemma_trim_start_ink(s);
    lemma_trim_end_ink(trim_start(s));
}

proof fn lemma_image_type_named(data: Seq<u8>)
    ensures
        image_type(data) matches Some(name) ==> name.len() > 0 && data.len() > 0,
{
    reveal_strlit("image/jpeg");
    reveal_strlit("image/png");
    reveal_strlit("image/gif");
    reveal_strlit("image/webp");
}

/// A message that was queued is ignored when it arrives again, whatever it says then.
pub proof fn law_message_is_queued_once(
    tables: Tables,
    arrival: ArrivalView,
    allowed_sender: Seq<char>,
    content: ContentView,
    now: i64,
    again: ContentView,
    later: i64,
)
    requires
        accepted(tables, arrival, allowed_sender, content, now).1 == Acceptance::Queued,
    ensures
        ({
            let after = accepted(tables, arrival, allowed_sender, content, now).0;
            accepted(after, arrival, allowed_sender, again, later) == (after, Acceptance::Ignored)
        }),
{
    let after = accepted(tables, arrival, allowed_sender, content, now).0;
    assert(after.inbound.last().event_id == arrival.event_id);
    lemma_find_event(after.inbound, arrival.event_id, 0);
    if find_event(after.inbound, arrival.event_id, 0) is None {
        assert(after.inbound[after.inbound.len() - 1].event_id != arrival.event_id);
    }
}

/// No queued text, caption or transcript is longer than the limit.
pub proof fn law_queued_texts_are_bounded(text: Seq<char>, success: bool, output: Seq<u8>)
    ensures
        queueable(text) ==> 0 < trim(text).len() <= MAX_MESSAGE_CHARS,
        transcript(success, output) matches Ok(Some(words)) ==> 0 < words.len()
            <= MAX_MESSAGE_CHARS && !is_blank(words),
        voice_text(None).len() <= MAX_MESSAGE_CHARS,
{
    reveal_strlit("I could not transcribe this Matrix voice message. Please resend it.");
    lemma_trim_twice(decode_utf8(output));
}

} // verus!
