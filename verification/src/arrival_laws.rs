//! What becomes of a message that arrives, said of the message itself.

use vstd::prelude::*;
use vstd::utf8::{encode_utf8, encode_utf8_decode_utf8, encode_utf8_valid_utf8, valid_utf8};

use crate::inbound::{
    accepted, admitted, audio_info_ok, bytes_at, image_info_ok, image_media_type, image_type,
    queueable, transcript, voice_text, Acceptance, ArrivalView, ContentView, TranscriptError,
};
use crate::model::{find_event, lemma_find_event, NewEvent, Tables};
use crate::operation_laws::{
    is_proper, law_image_events_carry_the_image, law_plain_events_are_text_or_voice,
    law_taking_in_adds_the_event, only_inbound, stands_in_queue,
};
use crate::records::{EventKind, EventState};
use crate::text::{is_white, starts_with, trim};
use crate::text_laws::{
    has_ink, is_trimmed, law_blank_means_all_white, law_trimming_takes_only_the_white_space_around,
};

verus! {

// ---------------------------------------------------------------------------
// Texts
// ---------------------------------------------------------------------------

/// A text may be queued when, trimmed, it has at least one and at most sixteen thousand
/// characters. Nothing else about it matters: neither which characters it holds nor how many
/// lines it has.
pub proof fn law_only_the_length_of_a_text_matters(text: Seq<char>, other: Seq<char>)
    ensures
        0 < trim(text).len() <= 16000 ==> queueable(text),
        trim(text).len() == 0 || trim(text).len() > 16000 ==> !queueable(text),
        queueable(text) <==> has_ink(text) && trim(text).len() <= 16000,
        trim(text).len() == trim(other).len() ==> queueable(text) == queueable(other),
{
    law_blank_means_all_white(text);
}

/// The output of the transcriber is read as UTF-8 when it succeeded and wrote at most 65536
/// bytes.
pub proof fn law_transcripts_are_the_text_written(text: Seq<char>)
    ensures
        ({
            let output = encode_utf8(text);
            transcript(true, output) == if output.len() > 65536 {
                Err::<Option<Seq<char>>, TranscriptError>(TranscriptError::Failed)
            } else if has_ink(text) && trim(text).len() <= 16000 {
                Ok(Some(trim(text)))
            } else {
                Ok(None)
            }
        }),
{
    encode_utf8_valid_utf8(text);
    encode_utf8_decode_utf8(text);
    law_blank_means_all_white(text);
}

/// A failed transcriber, too much output, and output that is no text give no transcript.
pub proof fn law_bad_output_gives_no_transcript(success: bool, output: Seq<u8>)
    ensures
        transcript(success, output) == Err::<Option<Seq<char>>, TranscriptError>(
            TranscriptError::Failed,
        ) <==> !success || output.len() > 65536,
        transcript(success, output) == Err::<Option<Seq<char>>, TranscriptError>(
            TranscriptError::NotText,
        ) <==> success && output.len() <= 65536 && !valid_utf8(output),
        transcript(success, output) is Ok <==> success && output.len() <= 65536 && valid_utf8(
            output,
        ),
{
}

/// A voice message is queued as its transcript says, or as a fixed request to send it again.
pub proof fn law_voice_messages_say_their_transcript(text: Seq<char>)
    ensures
        voice_text(Some(text)) == text,
        voice_text(None)
            == "I could not transcribe this Matrix voice message. Please resend it."@,
{
}

// ---------------------------------------------------------------------------
// Files
// ---------------------------------------------------------------------------

/// Audio may be fetched when, as far as is said of it, it lasts five minutes at most, has 25 MiB
/// at most, and is audio.
pub proof fn law_audio_may_be_fetched_by_what_is_said(
    duration: Option<(u64, u32)>,
    size: Option<u64>,
    mimetype: Option<Seq<char>>,
)
    ensures
        audio_info_ok(duration, size, mimetype) <==> audio_info_ok(duration, None, None)
            && audio_info_ok(None, size, None) && audio_info_ok(None, None, mimetype),
        audio_info_ok(None, None, None),
        duration matches Some((seconds, nanos)) ==> nanos < 1000000000 ==> (audio_info_ok(
            duration,
            None,
            None,
        ) <==> seconds * 1000000000 + nanos <= 300 * 1000000000),
        size matches Some(bytes) ==> (audio_info_ok(None, size, None) <==> bytes <= 26214400),
        mimetype matches Some(name) ==> (audio_info_ok(None, None, mimetype) <==> starts_with(
            name,
            "audio/"@,
        )),
{
}

/// True when the bytes begin with these.
pub open spec fn begins_with(data: Seq<u8>, wanted: Seq<u8>) -> bool {
    wanted.len() <= data.len() && forall|i: int|
        0 <= i < wanted.len() ==> #[trigger] data[i] == wanted[i]
}

proof fn lemma_begins(data: Seq<u8>, at: int, wanted: Seq<u8>)
    requires
        0 <= at <= data.len(),
    ensures
        bytes_at(data, at, wanted) <==> begins_with(data.skip(at), wanted),
{
    let tail = data.skip(at);
    if bytes_at(data, at, wanted) {
        assert forall|i: int| 0 <= i < wanted.len() implies #[trigger] tail[i] == wanted[i] by {
            assert(data.subrange(at, at + wanted.len())[i] == data[at + i]);
        }
    }
    if begins_with(tail, wanted) {
        let part = data.subrange(at, at + wanted.len());
        assert forall|i: int| 0 <= i < wanted.len() implies part[i] == wanted[i] by {
            assert(tail[i] == wanted[i]);
        }
        assert(part =~= wanted);
    }
}

/// The type of an image is known by its first bytes: those of JPEG, PNG, either GIF and WebP are
/// known, and no others.
pub proof fn law_images_are_known_by_their_first_bytes(data: Seq<u8>)
    ensures
        image_type(data) == Some("image/jpeg"@) <==> begins_with(data, seq![255u8, 216, 255]),
        image_type(data) == Some("image/png"@) <==> begins_with(
            data,
            seq![137u8, 80, 78, 71, 13, 10, 26, 10],
        ),
        image_type(data) == Some("image/gif"@) <==> begins_with(data, seq![71u8, 73, 70, 56, 55, 97])
            || begins_with(data, seq![71u8, 73, 70, 56, 57, 97]),
        image_type(data) == Some("image/webp"@) <==> begins_with(data, seq![82u8, 73, 70, 70])
            && data.len() >= 12 && begins_with(data.skip(8), seq![87u8, 69, 66, 80]),
        image_type(data) matches Some(name) ==> name == "image/jpeg"@ || name == "image/png"@
            || name == "image/gif"@ || name == "image/webp"@,
{
    reveal_strlit("image/jpeg");
    reveal_strlit("image/png");
    reveal_strlit("image/gif");
    reveal_strlit("image/webp");
    assert("image/jpeg"@[6] == 'j' && "image/png"@[6] == 'p' && "image/gif"@[6] == 'g'
        && "image/webp"@[6] == 'w');
    let jpeg = seq![255u8, 216, 255];
    let png = seq![137u8, 80, 78, 71, 13, 10, 26, 10];
    let gif_old = seq![71u8, 73, 70, 56, 55, 97];
    let gif_new = seq![71u8, 73, 70, 56, 57, 97];
    let riff = seq![82u8, 73, 70, 70];
    let webp = seq![87u8, 69, 66, 80];
    assert(data.skip(0) =~= data);
    lemma_begins(data, 0, jpeg);
    lemma_begins(data, 0, png);
    lemma_begins(data, 0, gif_old);
    lemma_begins(data, 0, gif_new);
    lemma_begins(data, 0, riff);
    if data.len() >= 8 {
        lemma_begins(data, 8, webp);
    }
    assert(jpeg[0] == 255 && png[0] == 137 && gif_old[0] == 71 && gif_new[0] == 71 && riff[0]
        == 82);
    if begins_with(data, jpeg) {
        assert(data[0] == 255);
    }
    if begins_with(data, png) {
        assert(data[0] == 137);
    }
    if begins_with(data, gif_old) || begins_with(data, gif_new) {
        assert(data[0] == 71);
    }
    if begins_with(data, riff) {
        assert(data[0] == 82);
    }
}

/// An image is taken for what its first bytes show, when it has 25 MiB at most and is not said to
/// be something else.
pub proof fn law_images_are_taken_for_what_they_show(declared: Option<Seq<char>>, data: Seq<u8>)
    ensures
        image_media_type(declared, data) is Some <==> image_type(data) is Some && data.len()
            <= 26214400 && (declared is None || declared == image_type(data)),
        image_media_type(declared, data) is Some ==> image_media_type(declared, data) == image_type(
            data,
        ),
{
}

/// An image may be fetched when, as far as is said of it, it has 25 MiB at most and one of four
/// types.
pub proof fn law_images_may_be_fetched_by_what_is_said(
    size: Option<u64>,
    mimetype: Option<Seq<char>>,
)
    ensures
        image_info_ok(size, mimetype) <==> (size is None || size->0 <= 26214400) && (mimetype
            is None || mimetype->0 == "image/jpeg"@ || mimetype->0 == "image/png"@ || mimetype->0
            == "image/gif"@ || mimetype->0 == "image/webp"@),
{
}

// ---------------------------------------------------------------------------
// Acceptance
// ---------------------------------------------------------------------------

/// True for a message that is welcome: it stands for itself, comes from the allowed sender and not
/// from the account itself, in a room that is joined, encrypted, bound and enabled, and is new.
pub open spec fn is_welcome(
    tables: Tables,
    arrival: ArrivalView,
    allowed_sender: Seq<char>,
) -> bool {
    &&& arrival.sender == allowed_sender
    &&& arrival.sender != arrival.own_user
    &&& !arrival.related
    &&& arrival.joined
    &&& arrival.encrypted
    &&& tables.rooms.contains_key(arrival.room_id)
    &&& tables.rooms[arrival.room_id].enabled
    &&& !stands_in_queue(tables, arrival.event_id)
}

/// True when there is a number left for one more event.
pub open spec fn has_number_left(tables: Tables) -> bool {
    tables.inbound.len() > 0 ==> tables.inbound[tables.inbound.len() - 1].sequence < i64::MAX
}

/// True when a message was queued: behind all others and just as it is.
pub open spec fn is_queued(
    result: (Tables, Acceptance),
    tables: Tables,
    arrival: ArrivalView,
    body: Seq<char>,
    kind: EventKind,
    image_mime: Option<Seq<char>>,
    image_data: Option<Seq<u8>>,
    now: i64,
) -> bool {
    let n = tables.inbound.len() as int;
    let row = result.0.inbound[n];
    &&& result.1 == Acceptance::Queued
    &&& only_inbound(tables, result.0)
    &&& result.0.inbound.len() == n + 1
    &&& forall|i: int| 0 <= i < n ==> #[trigger] result.0.inbound[i] == tables.inbound[i]
    &&& row.event_id == arrival.event_id
    &&& row.room_id == arrival.room_id
    &&& row.body == body
    &&& row.kind == kind
    &&& row.state == EventState::Queued
    &&& row.received_at == now
    &&& row.claimed_at is None
    &&& row.outbound_event_id is None
    &&& row.image_mime == image_mime
    &&& row.image_data == image_data
}

/// Just the welcome messages are admitted.
pub proof fn law_welcome_messages_are_admitted(
    tables: Tables,
    arrival: ArrivalView,
    allowed_sender: Seq<char>,
)
    ensures
        admitted(tables, arrival, allowed_sender) <==> is_welcome(tables, arrival, allowed_sender),
{
    lemma_find_event(tables.inbound, arrival.event_id, 0);
    if let Some(i) = find_event(tables.inbound, arrival.event_id, 0) {
        assert(tables.inbound[i].event_id == arrival.event_id);
    }
}

proof fn lemma_trimmed_ink(text: Seq<char>)
    requires
        has_ink(text),
    ensures
        has_ink(trim(text)),
{
    law_blank_means_all_white(text);
    law_trimming_takes_only_the_white_space_around(text);
    let t = trim(text);
    let (b, a) = choose|b: Seq<char>, a: Seq<char>| #[trigger] is_trimmed(text, b, t, a);
    assert(!is_white(t[0]));
}

/// Any welcome text that says something in at most sixteen thousand characters is queued, trimmed
/// and otherwise unaltered, whatever characters it holds.
pub proof fn law_welcome_texts_are_queued(
    tables: Tables,
    arrival: ArrivalView,
    allowed_sender: Seq<char>,
    body: Seq<char>,
    now: i64,
)
    requires
        is_welcome(tables, arrival, allowed_sender),
        arrival.event_id.len() > 0,
        arrival.room_id.len() > 0,
        has_number_left(tables),
        has_ink(body),
        trim(body).len() <= 16000,
    ensures
        is_queued(
            accepted(tables, arrival, allowed_sender, ContentView::Text { body }, now),
            tables,
            arrival,
            trim(body),
            EventKind::Text,
            None,
            None,
            now,
        ),
{
    law_welcome_messages_are_admitted(tables, arrival, allowed_sender);
    law_only_the_length_of_a_text_matters(body, body);
    lemma_trimmed_ink(body);
    let event = NewEvent {
        event_id: arrival.event_id,
        room_id: arrival.room_id,
        body: trim(body),
        kind: EventKind::Text,
        image_mime: None,
        image_data: None,
    };
    assert(is_proper(event));
    law_taking_in_adds_the_event(tables, event, now);
    law_plain_events_are_text_or_voice(
        tables,
        arrival.event_id,
        arrival.room_id,
        trim(body),
        "text"@,
        now,
    );
}

/// Any welcome voice message is queued: as its transcript says, or as a request to send it again.
pub proof fn law_welcome_voice_messages_are_queued(
    tables: Tables,
    arrival: ArrivalView,
    allowed_sender: Seq<char>,
    transcript: Option<Seq<char>>,
    now: i64,
)
    requires
        is_welcome(tables, arrival, allowed_sender),
        arrival.event_id.len() > 0,
        arrival.room_id.len() > 0,
        has_number_left(tables),
        transcript is Some ==> has_ink(transcript->0),
    ensures
        is_queued(
            accepted(tables, arrival, allowed_sender, ContentView::Voice { transcript }, now),
            tables,
            arrival,
            if transcript is Some {
                transcript->0
            } else {
                "I could not transcribe this Matrix voice message. Please resend it."@
            },
            EventKind::Voice,
            None,
            None,
            now,
        ),
{
    law_welcome_messages_are_admitted(tables, arrival, allowed_sender);
    reveal_strlit("I could not transcribe this Matrix voice message. Please resend it.");
    let request = "I could not transcribe this Matrix voice message. Please resend it."@;
    assert(!is_white(request[0]));
    reveal_strlit("text");
    reveal_strlit("voice");
    assert("text"@.len() != "voice"@.len());
    let body = voice_text(transcript);
    let event = NewEvent {
        event_id: arrival.event_id,
        room_id: arrival.room_id,
        body,
        kind: EventKind::Voice,
        image_mime: None,
        image_data: None,
    };
    assert(is_proper(event));
    law_taking_in_adds_the_event(tables, event, now);
    law_plain_events_are_text_or_voice(
        tables,
        arrival.event_id,
        arrival.room_id,
        body,
        "voice"@,
        now,
    );
}

/// Any welcome image of a known type, with 25 MiB at most, not said to be something else, and with
/// a caption that says something in at most sixteen thousand characters, is queued with every byte
/// of it.
pub proof fn law_welcome_images_are_queued(
    tables: Tables,
    arrival: ArrivalView,
    allowed_sender: Seq<char>,
    caption: Seq<char>,
    declared: Option<Seq<char>>,
    data: Seq<u8>,
    now: i64,
)
    requires
        is_welcome(tables, arrival, allowed_sender),
        arrival.event_id.len() > 0,
        arrival.room_id.len() > 0,
        has_number_left(tables),
        has_ink(caption),
        trim(caption).len() <= 16000,
        data.len() <= 26214400,
        image_type(data) is Some,
        declared is None || declared == image_type(data),
    ensures
        is_queued(
            accepted(
                tables,
                arrival,
                allowed_sender,
                ContentView::Image { caption, declared, data },
                now,
            ),
            tables,
            arrival,
            trim(caption),
            EventKind::Image,
            image_type(data),
            Some(data),
            now,
        ),
{
    law_welcome_messages_are_admitted(tables, arrival, allowed_sender);
    law_only_the_length_of_a_text_matters(caption, caption);
    law_images_are_taken_for_what_they_show(declared, data);
    law_images_are_known_by_their_first_bytes(data);
    reveal_strlit("image/jpeg");
    reveal_strlit("image/png");
    reveal_strlit("image/gif");
    reveal_strlit("image/webp");
    lemma_trimmed_ink(caption);
    let media_type = image_type(data)->0;
    let event = NewEvent {
        event_id: arrival.event_id,
        room_id: arrival.room_id,
        body: trim(caption),
        kind: EventKind::Image,
        image_mime: Some(media_type),
        image_data: Some(data),
    };
    assert(is_proper(event));
    law_taking_in_adds_the_event(tables, event, now);
    law_image_events_carry_the_image(
        tables,
        arrival.event_id,
        arrival.room_id,
        trim(caption),
        media_type,
        data,
        now,
    );
}

/// A message that is not welcome is ignored, and so is a text or a caption that is blank or too
/// long, an image that is too large, of no known type or said to be something else, and any other
/// content. The queue stays as it is.
pub proof fn law_other_messages_are_ignored(
    tables: Tables,
    arrival: ArrivalView,
    allowed_sender: Seq<char>,
    content: ContentView,
    now: i64,
)
    requires
        !is_welcome(tables, arrival, allowed_sender) || match content {
            ContentView::Text { body } => !has_ink(body) || trim(body).len() > 16000,
            ContentView::Voice { .. } => false,
            ContentView::Image { caption, declared, data } => !has_ink(caption) || trim(
                caption,
            ).len() > 16000 || data.len() > 26214400 || image_type(data) is None || (declared
                is Some && declared != image_type(data)),
            ContentView::Other => true,
        },
    ensures
        accepted(tables, arrival, allowed_sender, content, now) == (tables, Acceptance::Ignored),
{
    law_welcome_messages_are_admitted(tables, arrival, allowed_sender);
    match content {
        ContentView::Text { body } => {
            law_only_the_length_of_a_text_matters(body, body);
        },
        ContentView::Image { caption, declared, data } => {
            law_only_the_length_of_a_text_matters(caption, caption);
            law_images_are_taken_for_what_they_show(declared, data);
        },
        _ => {},
    }
}

/// A welcome message that the queue cannot hold fails, and the queue stays as it is: one without
/// ids, one with a blank transcript, or one for which there is no number left.
pub proof fn law_messages_the_queue_cannot_hold_fail(
    tables: Tables,
    arrival: ArrivalView,
    allowed_sender: Seq<char>,
    body: Seq<char>,
    transcript: Option<Seq<char>>,
    now: i64,
)
    requires
        is_welcome(tables, arrival, allowed_sender),
    ensures
        has_ink(body) && trim(body).len() <= 16000 && (arrival.event_id.len() == 0
            || arrival.room_id.len() == 0 || !has_number_left(tables)) ==> accepted(
            tables,
            arrival,
            allowed_sender,
            ContentView::Text { body },
            now,
        ) == (tables, Acceptance::Failed),
        arrival.event_id.len() == 0 || arrival.room_id.len() == 0 || !has_number_left(tables) || (
        transcript is Some && !has_ink(transcript->0)) ==> accepted(
            tables,
            arrival,
            allowed_sender,
            ContentView::Voice { transcript },
            now,
        ) == (tables, Acceptance::Failed),
{
    law_welcome_messages_are_admitted(tables, arrival, allowed_sender);
    law_only_the_length_of_a_text_matters(body, body);
    reveal_strlit("text");
    reveal_strlit("voice");
    assert("text"@.len() != "voice"@.len());
    if let Some(text) = transcript {
        law_blank_means_all_white(text);
    }
}

} // verus!
