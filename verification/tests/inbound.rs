use pi_matrix_transport::inbound::{
    accept, accept_at, admits, audio_info_allowed, bounded_text, image_info_allowed,
    queued_image_type, sender_allowed, sniffed_type, transcript_of, Acceptance, Arrival, AudioInfo,
    Content, TranscriptError,
};
use pi_matrix_transport::records::Snapshot;
use pi_matrix_transport::store::StateStore;

const ROOM: &str = "!room:example.org";
const SENDER: &str = "@me:example.org";

fn store() -> StateStore {
    StateStore::open_at(Snapshot::empty(), ROOM, &vec![ROOM.to_owned()], 1).unwrap()
}

fn arrival(event_id: &str) -> Arrival {
    Arrival {
        event_id: event_id.to_owned(),
        room_id: ROOM.to_owned(),
        sender: SENDER.to_owned(),
        own_user: "@bot:example.org".to_owned(),
        joined: true,
        encrypted: true,
        related: false,
    }
}

fn message(body: &str) -> Content {
    Content::Text { body: body.to_owned() }
}

#[test]
fn text_is_trimmed_and_queued_once() {
    let mut store = store();
    assert_eq!(accept(&mut store, &arrival("$a"), SENDER, &message(" hi \n")), Acceptance::Queued);
    let again = accept(&mut store, &arrival("$a"), SENDER, &message("other"));
    assert_eq!(again, Acceptance::Ignored);
    let event = store.claim_at(None, 5).unwrap();
    assert_eq!((event.body.as_str(), event.kind.as_str()), ("hi", "text"));
    assert_eq!(store.counts(), (0, 1, 0));
}

#[test]
fn strangers_and_strange_rooms_are_ignored() {
    let mut outsider = arrival("$a");
    outsider.sender = "@other:example.org".to_owned();
    let mut own = arrival("$a");
    own.own_user = SENDER.to_owned();
    let mut left = arrival("$a");
    left.joined = false;
    let mut open = arrival("$a");
    open.encrypted = false;
    let mut reply = arrival("$a");
    reply.related = true;
    let mut elsewhere = arrival("$a");
    elsewhere.room_id = "!other:example.org".to_owned();
    let mut store = store();
    for refused in [&outsider, &own, &left, &open, &reply, &elsewhere] {
        assert!(!admits(&store, refused, SENDER));
        let result = accept_at(&mut store, refused, SENDER, &message("hi"), 5);
        assert_eq!(result, Acceptance::Ignored);
    }
    assert!(!sender_allowed(&outsider, SENDER));
    assert!(sender_allowed(&open, SENDER));
    assert!(admits(&store, &arrival("$a"), SENDER));
    assert_eq!(store.counts(), (0, 0, 0));
}

#[test]
fn blank_and_endless_texts_are_ignored() {
    let mut store = store();
    let long = vec!["é"; 16_001].concat();
    let limit = vec!["é"; 16_000].concat();
    for body in ["", " \t", long.as_str()] {
        let result = accept(&mut store, &arrival("$a"), SENDER, &message(body));
        assert_eq!(result, Acceptance::Ignored);
    }
    assert_eq!(bounded_text(&format!(" {limit} ")), Some(limit.clone()));
    assert_eq!(bounded_text(&long), None);
    assert_eq!(accept(&mut store, &arrival("$a"), SENDER, &message(&limit)), Acceptance::Queued);
    assert_eq!(accept(&mut store, &arrival("$b"), SENDER, &Content::Other), Acceptance::Ignored);
}

#[test]
fn voice_without_transcript_asks_for_another() {
    let mut store = store();
    let heard = Content::Voice { transcript: Some("hello".to_owned()) };
    let unheard = Content::Voice { transcript: None };
    assert_eq!(accept_at(&mut store, &arrival("$a"), SENDER, &heard, 1), Acceptance::Queued);
    assert_eq!(accept_at(&mut store, &arrival("$b"), SENDER, &unheard, 2), Acceptance::Queued);
    let first = store.claim_at(None, 5).unwrap();
    assert_eq!((first.body.as_str(), first.kind.as_str()), ("hello", "voice"));
    let second = store.claim_at(None, 5).unwrap();
    assert_eq!(
        second.body,
        "I could not transcribe this Matrix voice message. Please resend it."
    );
    assert_eq!(second.kind, "voice");
}

#[test]
fn transcripts_are_checked() {
    assert_eq!(transcript_of(true, b" hi there\n".to_vec()), Ok(Some("hi there".to_owned())));
    assert_eq!(transcript_of(true, b" \n".to_vec()), Ok(None));
    assert_eq!(transcript_of(true, Vec::new()), Ok(None));
    assert_eq!(transcript_of(true, vec![b'x'; 16_001]), Ok(None));
    assert_eq!(transcript_of(false, b"hi".to_vec()), Err(TranscriptError::Failed));
    assert_eq!(transcript_of(true, vec![b' '; 65_537]), Err(TranscriptError::Failed));
    assert_eq!(transcript_of(true, vec![0xff, 0xfe]), Err(TranscriptError::NotText));
    assert_eq!(transcript_of(true, vec![0xc3, 0xa9]), Ok(Some("é".to_owned())));
    assert_eq!(transcript_of(true, vec![0xed, 0xa0, 0x80]), Err(TranscriptError::NotText));
    assert_eq!(transcript_of(true, vec![0xc0, 0x80]), Err(TranscriptError::NotText));
}

fn audio(duration: Option<(u64, u32)>, size: Option<u64>, mimetype: Option<&str>) -> AudioInfo {
    AudioInfo { duration, size, mimetype: mimetype.map(str::to_owned) }
}

#[test]
fn audio_is_judged_by_what_is_said_of_it() {
    assert!(audio_info_allowed(&audio(None, None, None)));
    assert!(audio_info_allowed(&audio(Some((300, 0)), Some(26_214_400), Some("audio/ogg"))));
    assert!(!audio_info_allowed(&audio(Some((300, 1)), None, None)));
    assert!(!audio_info_allowed(&audio(Some((301, 0)), None, None)));
    assert!(!audio_info_allowed(&audio(None, Some(26_214_401), None)));
    assert!(!audio_info_allowed(&audio(None, None, Some("video/mp4"))));
    assert!(!audio_info_allowed(&audio(None, None, Some("audio"))));
}

const PNG: &[u8] = &[0x89, b'P', b'N', b'G', 0x0d, 0x0a, 0x1a, 0x0a, 1, 2];

#[test]
fn image_signatures_are_recognised() {
    assert_eq!(sniffed_type(&[0xff, 0xd8, 0xff, 0xe0]), Some("image/jpeg"));
    assert_eq!(sniffed_type(PNG), Some("image/png"));
    assert_eq!(sniffed_type(b"GIF87a.."), Some("image/gif"));
    assert_eq!(sniffed_type(b"GIF89a"), Some("image/gif"));
    assert_eq!(sniffed_type(b"RIFF\x01\x02\x03\x04WEBPVP8 "), Some("image/webp"));
    assert_eq!(sniffed_type(b"RIFF\x01\x02\x03\x04WAVE"), None);
    assert_eq!(sniffed_type(b"GIF88a"), None);
    assert_eq!(sniffed_type(&PNG[..7]), None);
    assert_eq!(sniffed_type(b""), None);
    assert_eq!(sniffed_type(b"%PDF-1.4"), None);
}

#[test]
fn images_are_queued_under_their_type() {
    let mut store = store();
    let image = Content::Image {
        caption: " diagram.png ".to_owned(),
        declared: Some("image/png".to_owned()),
        data: PNG.to_vec(),
    };
    assert_eq!(accept(&mut store, &arrival("$a"), SENDER, &image), Acceptance::Queued);
    let event = store.claim_at(None, 5).unwrap();
    assert_eq!((event.body.as_str(), event.kind.as_str()), ("diagram.png", "image"));
    let shown = event.image.unwrap();
    assert_eq!(shown.media_type, "image/png");
    assert_eq!(shown.data, "iVBORw0KGgoBAg==");
}

#[test]
fn unfit_images_are_ignored() {
    let mut store = store();
    for (caption, declared, data) in [
        ("x", Some("image/jpeg"), PNG.to_vec()),
        ("x", None, b"plain".to_vec()),
        ("x", None, Vec::new()),
        ("  ", None, PNG.to_vec()),
    ] {
        let image = Content::Image {
            caption: caption.to_owned(),
            declared: declared.map(str::to_owned),
            data,
        };
        assert_eq!(accept(&mut store, &arrival("$a"), SENDER, &image), Acceptance::Ignored);
    }
    let mut huge = PNG.to_vec();
    huge.resize(26_214_400, 0);
    assert_eq!(queued_image_type(&None, &huge), Some("image/png"));
    huge.push(0);
    assert_eq!(queued_image_type(&None, &huge), None);
    assert!(image_info_allowed(Some(26_214_400), &Some("image/webp".to_owned())));
    assert!(image_info_allowed(None, &None));
    assert!(!image_info_allowed(Some(26_214_401), &None));
    assert!(!image_info_allowed(None, &Some("image/svg+xml".to_owned())));
}
