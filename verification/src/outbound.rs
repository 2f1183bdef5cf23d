//! What goes out: transaction ids, formatted replies, spoken replies.

use matrix_sdk::ruma::events::room::message::{MessageType, RoomMessageEventContent};
use vstd::prelude::*;
use vstd::utf8::encode_utf8;

use crate::clock::reading;
use crate::encoding::{append_hex, append_padded, hex_text, padded_decimal};
use crate::text::{concat, is_digit, trim, trim_text};

verus! {

broadcast use vstd::string::group_string_axioms;

/// Largest audio file that is taken in or sent out, in bytes.
pub const MAX_AUDIO_BYTES: usize = 26_214_400;

// ---------------------------------------------------------------------------
// Transaction ids
// ---------------------------------------------------------------------------

/// The SHA-256 digest of `data`.
pub uninterp spec fn sha256(data: Seq<u8>) -> Seq<u8>;

/// `Sha256::digest` of sha2: the SHA-256 digest of the bytes, 32 bytes long.
#[verifier::external_body]
fn sha256_digest(data: &[u8]) -> (r: Vec<u8>)
    ensures
        r@ == sha256(data@),
        r@.len() == 32,
{
    <sha2::Sha256 as sha2::Digest>::digest(data).to_vec()
}

/// The transaction id for a digest.
pub open spec fn digest_id(digest: Seq<u8>) -> Seq<char> {
    "matrix_"@ + hex_text(digest)
}

/// The transaction id for an idempotency key.
pub open spec fn transaction_id(idempotency_key: Seq<char>) -> Seq<char> {
    digest_id(sha256(encode_utf8(idempotency_key)))
}

/// The transaction id for a digest.
pub fn transaction_id_of_digest(digest: &[u8]) -> (r: String)
    ensures
        r@ == digest_id(digest@),
{
    let mut id = "matrix_".to_owned();
    append_hex(&mut id, digest);
    id
}

/// The transaction id for an idempotency key. It is the same on every call, so that the
/// homeserver recognises a retry, and shows nothing of the key.
pub fn deterministic_transaction_id(idempotency_key: &str) -> (r: String)
    ensures
        r@ == transaction_id(idempotency_key@),
        r@ == "matrix_"@ + hex_text(sha256(encode_utf8(idempotency_key@))),
        r@.len() == 71,
{
    let digest = sha256_digest(idempotency_key.as_bytes());
    proof {
        reveal_strlit("matrix_");
    }
    transaction_id_of_digest(digest.as_slice())
}

// ---------------------------------------------------------------------------
// Formatted replies
// ---------------------------------------------------------------------------

/// The HTML that a Markdown text renders to, if it holds any Markdown.
pub uninterp spec fn markdown_html(body: Seq<char>) -> Option<Seq<char>>;

/// The formatted part of a reply.
#[derive(Debug, PartialEq, Eq)]
pub struct Formatted {
    pub format: String,
    pub body: String,
}

/// A reply: the text as it was written, and its formatted rendering for clients that can show
/// it.
#[derive(Debug, PartialEq, Eq)]
pub struct RichText {
    pub body: String,
    pub formatted: Option<Formatted>,
}

/// The HTML of a reply.
pub open spec fn formatted_html(formatted: Option<Formatted>) -> Option<Seq<char>> {
    match formatted {
        Some(part) => Some(part.body@),
        None => None,
    }
}

/// `RoomMessageEventContent::text_markdown` of ruma: the text itself and, when it holds
/// Markdown, its HTML rendering under the format name of Matrix.
#[verifier::external_body]
fn markdown_message(body: &str) -> (r: RichText)
    ensures
        r.body@ == body@,
        formatted_html(r.formatted) == markdown_html(body@),
        r.formatted matches Some(part) ==> part.format@ == "org.matrix.custom.html"@,
{
    match RoomMessageEventContent::text_markdown(body).msgtype {
        MessageType::Text(text) => RichText {
            body: text.body,
            formatted: text.formatted.map(
                |part| Formatted { format: part.format.as_str().to_owned(), body: part.body },
            ),
        },
        other => RichText { body: other.body().to_owned(), formatted: None },
    }
}

/// The reply for a Markdown text: the trimmed text as fallback, its HTML for capable clients.
pub fn rich_text_reply(body: &str) -> (r: RichText)
    ensures
        r.body@ == trim(body@),
        formatted_html(r.formatted) == markdown_html(trim(body@)),
        r.formatted matches Some(part) ==> part.format@ == "org.matrix.custom.html"@,
{
    let trimmed = trim_text(body);
    markdown_message(trimmed.as_str())
}

// ---------------------------------------------------------------------------
// Spoken replies
// ---------------------------------------------------------------------------

/// True for the size of an audio file that may be sent: not empty and within the limit.
pub open spec fn audio_size_ok(bytes: nat) -> bool {
    0 < bytes <= MAX_AUDIO_BYTES
}

/// True for the size of an audio file that may be sent: not empty and within the limit.
pub fn audio_size_allowed(bytes: usize) -> (r: bool)
    ensures
        r == audio_size_ok(bytes as nat),
{
    bytes != 0 && bytes <= MAX_AUDIO_BYTES
}

/// The name of an audio file made at the given time, with the given number.
pub open spec fn audio_filename(timestamp: Seq<char>, sequence: u64) -> Seq<char> {
    "matrix-reply-"@ + timestamp + "-"@ + padded_decimal(sequence as nat, 8) + ".mp3"@
}

/// True for a timestamp: the digits of the date, a `T`, six digits of the time and nine of the
/// nanoseconds, and a final `Z`. The date has eight digits, except that a year beyond four digits
/// makes it longer and has a `+` before it.
pub open spec fn is_timestamp(s: Seq<char>) -> bool {
    &&& s.len() >= 25
    &&& s[s.len() - 1] == 'Z'
    &&& s[s.len() - 17] == 'T'
    &&& s[0] == '+' <==> s.len() > 25
    &&& forall|i: int|
        0 <= i < s.len() && i != s.len() - 1 && i != s.len() - 17 && !(i == 0 && s.len() > 25)
            ==> is_digit(#[trigger] s[i])
}

/// `Utc::now` of chrono, formatted as `%Y%m%dT%H%M%S%9fZ`: eight digits of the date, a `T`, six
/// digits of the time, nine of the nanoseconds, and a `Z`. A year beyond four digits is written
/// with all its digits behind a `+`. Which moment it is, is not stated: it is a reading of the
/// clock, which must not stand before 1970.
#[verifier::external_body]
fn utc_timestamp() -> (r: String)
    ensures
        is_timestamp(r@),
{
    chrono::Utc::now().format("%Y%m%dT%H%M%S%9fZ").to_string()
}

/// The name of an audio file made at the given time, with the given number.
pub fn audio_filename_at(timestamp: &str, sequence: u64) -> (r: String)
    ensures
        r@ == audio_filename(timestamp@, sequence),
{
    let mut name = concat("matrix-reply-", timestamp);
    name.append("-");
    append_padded(&mut name, sequence, 8);
    name.append(".mp3");
    name
}

/// True for a timestamp that the clock may give.
pub closed spec fn is_moment(timestamp: Seq<char>) -> bool {
    exists|text: String| #[trigger] call_ensures(utc_timestamp, (), text) && text@ == timestamp
}

/// The name of an audio file made now, with the given number.
pub fn outbound_audio_filename(sequence: u64) -> (r: String)
    ensures
        exists|timestamp: Seq<char>|
            is_timestamp(timestamp) && is_moment(timestamp) && r@ == #[trigger] audio_filename(
                timestamp,
                sequence,
            ),
{
    let timestamp = reading(utc_timestamp);
    proof {
        assert(is_moment(timestamp@));
    }
    audio_filename_at(timestamp.as_str(), sequence)
}

/// The numbers of the audio files that one process makes.
#[derive(Debug)]
pub struct AudioCounter {
    next: u64,
}

impl View for AudioCounter {
    type V = u64;

    /// The number of the next file.
    closed spec fn view(&self) -> u64 {
        self.next
    }
}

/// The number after `n`; the numbers begin anew behind the last.
pub open spec fn number_after(n: u64) -> u64 {
    if n == u64::MAX {
        0
    } else {
        (n + 1) as u64
    }
}

impl AudioCounter {
    /// A counter that begins at zero.
    pub fn new() -> (r: AudioCounter)
        ensures
            r@ == 0,
    {
        AudioCounter { next: 0 }
    }

    /// The name of the next audio file, made now.
    pub fn next_filename(&mut self) -> (r: String)
        ensures
            exists|timestamp: Seq<char>|
                is_timestamp(timestamp) && is_moment(timestamp) && r@ == #[trigger] audio_filename(
                    timestamp,
                    old(self)@,
                ),
            final(self)@ == number_after(old(self)@),
    {
        let number: u64 = self.next;
        self.next = if number == u64::MAX {
            0
        } else {
            number + 1
        };
        let name = outbound_audio_filename(number);
        proof {
            let timestamp = choose|timestamp: Seq<char>|
                is_timestamp(timestamp) && is_moment(timestamp) && name@
                    == #[trigger] audio_filename(timestamp, number);
            assert(name@ == audio_filename(timestamp, old(self)@));
        }
        name
    }
}

// ---------------------------------------------------------------------------
// Recordings
// ---------------------------------------------------------------------------

/// Why a recording cannot be sent.
#[derive(Clone, Copy, Debug, PartialEq, Eq, Structural)]
pub enum RecordingError {
    /// The speech command failed.
    Failed,
    /// The recording is empty or too large.
    Size,
}

/// The recording that the speech command made, if it succeeded and the size is one that may be
/// sent.
pub fn recording_of(success: bool, data: Vec<u8>) -> (r: Result<Vec<u8>, RecordingError>)
    ensures
        r == if !success {
            Err::<Vec<u8>, RecordingError>(RecordingError::Failed)
        } else if !audio_size_ok(data@.len()) {
            Err(RecordingError::Size)
        } else {
            Ok(data)
        },
{
    if !success {
        return Err(RecordingError::Failed);
    }
    if !audio_size_allowed(data.len()) {
        return Err(RecordingError::Size);
    }
    Ok(data)
}

} // verus!
