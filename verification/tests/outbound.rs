use pi_matrix_transport::outbound::{
    audio_filename_at, audio_size_allowed, deterministic_transaction_id, outbound_audio_filename,
    recording_of, rich_text_reply, transaction_id_of_digest, AudioCounter, RecordingError,
};

#[test]
fn outbound_audio_filenames_are_punctuation_free_and_unique() {
    let first = outbound_audio_filename(0);
    let second = outbound_audio_filename(1);

    assert_ne!(first, second);
    assert!(first.starts_with("matrix-reply-"));
    assert!(first.ends_with(".mp3"));
    let timestamp = first
        .strip_prefix("matrix-reply-")
        .and_then(|value| value.split_once('-'))
        .expect("filename contains timestamp")
        .0;
    assert_eq!(timestamp.len(), 25);
    assert_eq!(&timestamp[8..9], "T");
    assert!(timestamp.ends_with('Z'));
    assert!(timestamp[..24]
        .chars()
        .all(|character| character.is_ascii_digit() || character == 'T'));
}

#[test]
fn transaction_id_is_stable_and_opaque() {
    let first = deterministic_transaction_id("reply:$private-event");
    let second = deterministic_transaction_id("reply:$private-event");
    assert_eq!(first, second);
    assert!(!first.as_str().contains("private"));
}

#[test]
fn rich_text_reply_preserves_plain_fallback_and_adds_matrix_html() {
    let body = "# Status\n\n- **ready**\n- [details](https://example.test)";
    let content = rich_text_reply(body);

    assert_eq!(content.body, body);
    let formatted = content.formatted.expect("Markdown produces Matrix HTML");
    assert_eq!(formatted.format, "org.matrix.custom.html");
    assert!(formatted.body.contains("<h1>Status</h1>"));
    assert!(formatted.body.contains("<strong>ready</strong>"));
    assert!(formatted.body.contains("<a href=\"https://example.test\">details</a>"));
}

#[test]
fn transaction_ids_are_hexadecimal_digests() {
    assert_eq!(
        deterministic_transaction_id("reply:$private-event"),
        "matrix_906f66cfe69f3fcb767d9084f89a0070b680b6d55b37bd80b95174f2cc68a56f"
    );
    assert_eq!(
        deterministic_transaction_id(""),
        "matrix_e3b0c44298fc1c149afbf4c8996fb92427ae41e4649b934ca495991b7852b855"
    );
    assert_eq!(transaction_id_of_digest(&[0xab, 0x01]), "matrix_ab01");
}

#[test]
fn plain_replies_are_trimmed_and_have_no_html() {
    let reply = rich_text_reply("  just text \n");
    assert_eq!(reply.body, "just text");
    assert_eq!(reply.formatted, None);
}

#[test]
fn audio_files_are_numbered() {
    assert_eq!(
        audio_filename_at("20240102T030405000000006Z", 7),
        "matrix-reply-20240102T030405000000006Z-00000007.mp3"
    );
    assert_eq!(audio_filename_at("t", 123_456_789), "matrix-reply-t-123456789.mp3");
    assert_ne!(audio_filename_at("t", 1), audio_filename_at("t", 10));
}

#[test]
fn audio_sizes_are_bounded() {
    assert!(!audio_size_allowed(0));
    assert!(audio_size_allowed(1));
    assert!(audio_size_allowed(25 * 1024 * 1024));
    assert!(!audio_size_allowed(25 * 1024 * 1024 + 1));
}

#[test]
fn one_process_numbers_its_audio_files() {
    let mut counter = AudioCounter::new();
    let first = counter.next_filename();
    let second = counter.next_filename();
    assert_ne!(first, second);
    assert!(first.ends_with("Z-00000000.mp3"));
    assert!(second.ends_with("Z-00000001.mp3"));
    for name in [first, second] {
        let stamp: Vec<char> = name["matrix-reply-".len()..].chars().take(25).collect();
        for (i, c) in stamp.iter().enumerate() {
            match i {
                8 => assert_eq!(*c, 'T'),
                24 => assert_eq!(*c, 'Z'),
                _ => assert!(c.is_ascii_digit()),
            }
        }
    }
    assert_ne!(
        audio_filename_at("20240102T030405000000006Z", 1),
        audio_filename_at("20240102T030405000000007Z", 2)
    );
}

#[test]
fn recordings_are_checked() {
    assert_eq!(recording_of(true, vec![1, 2]), Ok(vec![1, 2]));
    assert_eq!(recording_of(false, vec![1, 2]), Err(RecordingError::Failed));
    assert_eq!(recording_of(true, vec![]), Err(RecordingError::Size));
    assert_eq!(recording_of(true, vec![0; 26_214_401]), Err(RecordingError::Size));
    assert_eq!(recording_of(false, vec![]), Err(RecordingError::Failed));
}
