use pi_matrix_transport::exchange::{
    begin, begin_at, edit_step, resume, resume_at, NoticeEdit, Outcome, Stage, Step,
};
use pi_matrix_transport::protocol::{
    request_text, response_line, ActivityOutcome, Request, Response, MAX_REQUEST_BYTES,
};
use pi_matrix_transport::records::{InboundEvent, Snapshot};
use pi_matrix_transport::store::StateStore;

const ROOM: &str = "!room:example.org";
const OPENED: Outcome = Outcome::Opened { joined: true, encrypted: true };

fn store_with(events: &[(&str, &str)]) -> StateStore {
    let mut store =
        StateStore::open_at(Snapshot::empty(), ROOM, &vec![ROOM.to_owned()], 1).unwrap();
    for (event_id, kind) in events {
        assert_eq!(store.enqueue_at(event_id, ROOM, "question", kind, 2), Ok(true));
    }
    store
}

fn text(s: &str) -> String {
    s.to_owned()
}

fn answer(step: Step) -> Response {
    match step {
        Step::Respond(response) => response,
        other => panic!("no response: {other:?}"),
    }
}

fn assert_failed(stage: Stage, step: Step) {
    assert!(matches!(stage, Stage::Finished));
    let response = answer(step);
    assert!(!response.ok);
    assert_eq!(response.error, Some("operation_failed"));
    assert_eq!(response.status, None);
}

fn send(event_id: &str, key: &str, body: &str) -> Request {
    Request::Send { event_id: text(event_id), idempotency_key: text(key), body: text(body) }
}

#[test]
fn status_counts_events() {
    let mut store = store_with(&[("$one", "text"), ("$two", "text")]);
    store.claim_at(None, 3).unwrap();
    let (_, step) = begin(&mut store, Request::Status);
    let response = answer(step);
    assert!(response.ok);
    assert_eq!(response.status, Some("ready"));
    assert_eq!(
        (response.queued, response.claimed, response.completed),
        (Some(1), Some(1), Some(0))
    );
}

#[test]
fn claims_are_answered_with_the_event() {
    let mut store = store_with(&[("$one", "text")]);
    let (_, step) = begin(&mut store, Request::Claim { room_id: None });
    let response = answer(step);
    assert_eq!(response.status, Some("claimed"));
    assert_eq!(response.event.unwrap().event_id, "$one");
    let (_, step) = begin_at(&mut store, Request::Claim { room_id: Some(text(ROOM)) }, 5);
    let response = answer(step);
    assert_eq!(response.status, Some("empty"));
    assert_eq!(response.event, None);
}

#[test]
fn releases_are_answered() {
    let mut store = store_with(&[("$one", "text")]);
    let (_, step) = begin(&mut store, Request::Release { event_id: text("$one") });
    assert_eq!(answer(step).status, Some("unchanged"));
    store.claim_at(None, 3).unwrap();
    let (_, step) = begin(&mut store, Request::Release { event_id: text("$one") });
    assert_eq!(answer(step).status, Some("released"));
}

#[test]
fn a_turn_is_announced() {
    let mut store = store_with(&[("$one", "text")]);
    let (stage, step) = begin(&mut store, Request::ActivityStart { event_id: text("$one") });
    assert!(matches!(step, Step::OpenRoom { room_id } if room_id == ROOM));
    let (stage, step) = resume(&mut store, stage, OPENED);
    assert!(matches!(step, Step::SetTyping { typing: true }));
    let (stage, step) = resume(&mut store, stage, Outcome::Done);
    match step {
        Step::SendNotice { body, transaction_id } => {
            assert_eq!(body, "Processing…");
            assert_eq!(
                transaction_id,
                "matrix_f366182aac36b541def47dc5454d856cdd77f20ad7212aba55f729461f72d983"
            );
        }
        other => panic!("{other:?}"),
    }
    let (stage, step) = resume(&mut store, stage, Outcome::Sent { event_id: text("$notice") });
    assert!(matches!(stage, Stage::Finished));
    let response = answer(step);
    assert_eq!(response.status, Some("activity_started"));
    assert_eq!(response.matrix_event_id.as_deref(), Some("$notice"));
}

#[test]
fn unknown_events_and_rooms_fail() {
    let mut store = store_with(&[]);
    let (stage, step) = begin(&mut store, Request::ActivityStart { event_id: text("$none") });
    assert_failed(stage, step);
    let mut bad =
        StateStore::open_at(Snapshot::empty(), "room", &vec![text("room")], 1).unwrap();
    bad.enqueue_at("$one", "room", "x", "text", 1).unwrap();
    let (stage, step) = begin(&mut bad, Request::ActivityStart { event_id: text("$one") });
    assert_failed(stage, step);
    let (stage, step) = begin(&mut bad, send("$one", "k", "x"));
    assert_failed(stage, step);
}

fn heartbeat(status_event_id: Option<&str>, long_running: bool) -> Request {
    Request::ActivityHeartbeat {
        event_id: text("$one"),
        status_event_id: status_event_id.map(text),
        long_running,
    }
}

#[test]
fn heartbeats_edit_only_long_turns() {
    let mut store = store_with(&[("$one", "text")]);
    for request in [
        heartbeat(None, true),
        heartbeat(Some("$notice"), false),
        heartbeat(Some("not an id"), false),
    ] {
        let (stage, _) = begin(&mut store, request);
        let (stage, step) = resume(&mut store, stage, OPENED);
        assert!(matches!(step, Step::SetTyping { typing: true }));
        let (_, step) = resume(&mut store, stage, Outcome::Done);
        let response = answer(step);
        assert_eq!(response.status, Some("activity_refreshed"));
        assert_eq!(response.matrix_event_id, None);
    }
    let (stage, _) = begin(&mut store, heartbeat(Some("$notice"), true));
    let (stage, _) = resume(&mut store, stage, OPENED);
    let (stage, step) = resume(&mut store, stage, Outcome::Done);
    match step {
        Step::EditNotice { event_id, body, transaction_id } => {
            assert_eq!(event_id, "$notice");
            assert_eq!(body, "Still working…");
            assert_eq!(
                transaction_id,
                "matrix_ff7cebbd1c1bdf959adec22b38dd1abf6111a4490a651fc71444179dfeb7c7f5"
            );
        }
        other => panic!("{other:?}"),
    }
    let (_, step) = resume(&mut store, stage, Outcome::Done);
    assert_eq!(answer(step).status, Some("activity_refreshed"));
}

#[test]
fn malformed_notice_ids_fail_after_typing() {
    let mut store = store_with(&[("$one", "text")]);
    let (stage, _) = begin(&mut store, heartbeat(Some("notice"), true));
    let (stage, step) = resume(&mut store, stage, OPENED);
    assert!(matches!(step, Step::SetTyping { typing: true }));
    let (stage, step) = resume(&mut store, stage, Outcome::Done);
    assert_failed(stage, step);
    let edit = NoticeEdit { event_id: text("$x"), body: "Done.", phase: "done" };
    let (stage, step) = edit_step(edit, "activity_stopped", false);
    assert_failed(stage, step);
}

#[test]
fn the_end_of_a_turn_is_shown() {
    for (outcome, shown, id) in [
        (
            ActivityOutcome::Done,
            "Done.",
            "matrix_4b58373693cf95e684f715781392519419c949fe26c3056aaf3b08704f1950fc",
        ),
        (
            ActivityOutcome::Stopped,
            "Stopped.",
            "matrix_f4d0685dba72280e81686cdeb8e1a327451457a17e6c3e6fbf7a7bbc2cce3e03",
        ),
    ] {
        let mut store = store_with(&[("$one", "text")]);
        let request = Request::ActivityStop {
            event_id: text("$one"),
            status_event_id: Some(text("$notice")),
            outcome,
        };
        let (stage, _) = begin(&mut store, request);
        let (stage, step) = resume(&mut store, stage, OPENED);
        assert!(matches!(step, Step::SetTyping { typing: false }));
        let (stage, step) = resume(&mut store, stage, Outcome::Done);
        match step {
            Step::EditNotice { body, transaction_id, .. } => {
                assert_eq!(body, shown);
                assert_eq!(transaction_id, id);
            }
            other => panic!("{other:?}"),
        }
        let (_, step) = resume(&mut store, stage, Outcome::Done);
        assert_eq!(answer(step).status, Some("activity_stopped"));
    }
    let mut store = store_with(&[("$one", "text")]);
    let request = Request::ActivityStop {
        event_id: text("$one"),
        status_event_id: None,
        outcome: ActivityOutcome::Done,
    };
    let (stage, _) = begin(&mut store, request);
    let (stage, _) = resume(&mut store, stage, OPENED);
    let (_, step) = resume(&mut store, stage, Outcome::Done);
    assert_eq!(answer(step).status, Some("activity_stopped"));
}

#[test]
fn a_text_answer_is_sent_and_recorded() {
    let mut store = store_with(&[("$one", "text")]);
    store.claim_at(None, 3).unwrap();
    let (stage, step) = begin(&mut store, send("$one", "reply:$one", " the answer "));
    assert!(matches!(step, Step::OpenRoom { room_id } if room_id == ROOM));
    let (stage, step) = resume(&mut store, stage, OPENED);
    match step {
        Step::SendReply { body, transaction_id } => {
            assert_eq!(body, " the answer ");
            assert_eq!(
                transaction_id,
                "matrix_4a3dfd45d5b7b98417d94de5a6c641e395afe8886f8925163aa657bc7af47a17"
            );
        }
        other => panic!("{other:?}"),
    }
    let (_, step) = resume(&mut store, stage, Outcome::Sent { event_id: text("$out") });
    let response = answer(step);
    assert_eq!(response.status, Some("sent"));
    assert_eq!(response.matrix_event_id.as_deref(), Some("$out"));
    assert_eq!(store.counts(), (0, 0, 1));

    // A retry is answered from the record and opens no room.
    let (stage, step) = begin(&mut store, send("$one", "reply:$one", "again"));
    assert!(matches!(stage, Stage::Finished));
    let response = answer(step);
    assert_eq!(response.status, Some("duplicate"));
    assert_eq!(response.matrix_event_id.as_deref(), Some("$out"));
}

#[test]
fn a_voice_answer_is_also_spoken() {
    for outcome in [Outcome::Failed, Outcome::Done, Outcome::Sent { event_id: text("$audio") }] {
        let mut store = store_with(&[("$one", "voice")]);
        store.claim_at(None, 3).unwrap();
        let (stage, _) = begin(&mut store, send("$one", "reply:$one", "\n**The** answer\n"));
        let (stage, step) = resume(&mut store, stage, OPENED);
        match step {
            Step::SendReply { transaction_id, .. } => assert_eq!(
                transaction_id,
                "matrix_616987de12265b685a5daab95b32b3b119e302701673dba01f3248b6c8dc469f"
            ),
            other => panic!("{other:?}"),
        }
        let (stage, step) = resume(&mut store, stage, Outcome::Sent { event_id: text("$out") });
        match step {
            Step::SendAudio { speech, transaction_id } => {
                assert_eq!(speech, "The answer");
                assert_eq!(
                    transaction_id,
                    "matrix_494f8ef2c85cabbba35215b13babcc2ff30720933b9f8f68a1d18a97267f0ac8"
                );
            }
            other => panic!("{other:?}"),
        }
        let (_, step) = resume(&mut store, stage, outcome);
        let response = answer(step);
        assert_eq!(response.status, Some("sent"));
        assert_eq!(response.matrix_event_id.as_deref(), Some("$out"));
    }
}

#[test]
fn silence_is_not_spoken() {
    let mut store = store_with(&[("$one", "voice")]);
    store.claim_at(None, 3).unwrap();
    let (stage, _) = begin(&mut store, send("$one", "k", "---"));
    let (stage, _) = resume(&mut store, stage, OPENED);
    let (_, step) = resume(&mut store, stage, Outcome::Sent { event_id: text("$out") });
    assert_eq!(answer(step).status, Some("sent"));
}

#[test]
fn unfit_answers_are_refused() {
    let mut store = store_with(&[("$one", "text")]);
    store.claim_at(None, 3).unwrap();
    let long = vec!["é"; 16_001].concat();
    let limit = vec!["é"; 16_000].concat();
    for request in [send("$one", "  ", "x"), send("$one", "k", " \n"), send("$one", "k", &long)] {
        let (stage, step) = begin(&mut store, request);
        assert_failed(stage, step);
    }
    let (_, step) = begin(&mut store, send("$one", "k", &limit));
    assert!(matches!(step, Step::OpenRoom { .. }));
    let (stage, step) = begin(&mut store, send("$none", "k", "x"));
    assert_failed(stage, step);
}

#[test]
fn failed_work_fails_the_request() {
    let mut store = store_with(&[("$one", "text")]);
    let (stage, _) = begin(&mut store, Request::ActivityStart { event_id: text("$one") });
    let (stage, step) = resume(&mut store, stage, Outcome::Failed);
    assert_failed(stage, step);
    // The reply was sent, but the event had not been claimed.
    let (stage, _) = begin(&mut store, send("$one", "k", "x"));
    let (stage, _) = resume(&mut store, stage, OPENED);
    let (stage, step) = resume_at(&mut store, stage, Outcome::Sent { event_id: text("$o") }, 9);
    assert_failed(stage, step);
    assert_eq!(store.outbound_event("k"), None);
    let (stage, step) = resume(&mut store, Stage::Finished, Outcome::Done);
    assert_failed(stage, step);
}

fn add(slug: &str, name: Option<&str>) -> Request {
    Request::ProjectRoomAdd { project_slug: text(slug), display_name: name.map(text) }
}

#[test]
fn project_rooms_are_added_listed_and_removed() {
    let mut store = store_with(&[]);
    let (stage, step) = begin(&mut store, add(" Big-Plan ", None));
    assert!(matches!(step, Step::CreateRoom { name } if name == "Project · big plan"));
    let (_, step) = resume(&mut store, stage, Outcome::Created { room_id: text("!new:x") });
    let response = answer(step);
    assert_eq!(response.status, Some("project_room_created"));
    assert_eq!(response.room_id.as_deref(), Some("!new:x"));
    assert!(store.room_enabled("!new:x"));

    let (_, step) = begin(&mut store, add("big-plan", Some("Other")));
    let response = answer(step);
    assert_eq!(response.status, Some("project_room_exists"));
    assert_eq!(response.room_id.as_deref(), Some("!new:x"));

    let (_, step) = begin(&mut store, Request::ProjectRoomList);
    let response = answer(step);
    assert_eq!(response.status, Some("project_rooms"));
    let listed = response.project_rooms.unwrap();
    assert_eq!(listed.len(), 1);
    assert_eq!(listed[0].project_slug, "big-plan");

    let remove = || Request::ProjectRoomRemove { project_slug: text("BIG-plan") };
    let (stage, step) = begin(&mut store, remove());
    assert!(matches!(step, Step::LeaveRoom { room_id } if room_id == "!new:x"));
    assert!(!store.room_enabled("!new:x"));
    let (_, step) = resume(&mut store, stage, Outcome::Done);
    let response = answer(step);
    assert_eq!(response.status, Some("project_room_removed"));
    assert_eq!(response.room_id.as_deref(), Some("!new:x"));
    let (_, step) = begin(&mut store, remove());
    assert_eq!(answer(step).status, Some("project_room_absent"));
}

#[test]
fn bad_slugs_and_failed_creation_fail() {
    let mut store = store_with(&[]);
    let (stage, step) = begin(&mut store, add("no spaces", None));
    assert_failed(stage, step);
    let (stage, step) =
        begin(&mut store, Request::ProjectRoomRemove { project_slug: text("-x") });
    assert_failed(stage, step);
    let (stage, step) = begin(&mut store, add("plan", Some(" The Plan ")));
    assert!(matches!(step, Step::CreateRoom { name } if name == "The Plan"));
    let (stage, step) = resume(&mut store, stage, Outcome::Failed);
    assert_failed(stage, step);
    assert_eq!(store.room_for_project("plan"), None);
}

#[test]
fn leaving_a_malformed_room_fails_after_unbinding() {
    let mut store = store_with(&[]);
    store.upsert_room_binding_at("not a room", Some("plan"), 1).unwrap();
    let request = Request::ProjectRoomRemove { project_slug: text("plan") };
    let (stage, step) = begin(&mut store, request);
    assert_failed(stage, step);
    assert_eq!(store.room_for_project("plan"), None);
}

#[test]
fn responses_hold_what_they_are_given() {
    let event = InboundEvent {
        event_id: text("$e"),
        room_id: text(ROOM),
        body: text("b"),
        kind: text("text"),
        image: None,
    };
    let claimed = Response::claim(Some(event.clone()));
    assert_eq!((claimed.ok, claimed.status, claimed.event), (true, Some("claimed"), Some(event)));
    let done = Response::done("sent", Some(text("$m")));
    assert_eq!(done.matrix_event_id.as_deref(), Some("$m"));
    let room = Response::room("project_room_exists", text("!r"));
    assert_eq!(room.room_id.as_deref(), Some("!r"));
    let none = Response::project_rooms(vec![]);
    assert_eq!(none.project_rooms, Some(vec![]));
    let error = Response::error("invalid_request");
    assert_eq!((error.ok, error.error), (false, Some("invalid_request")));
    let status = Response::status(1, 2, 3);
    assert_eq!((status.queued, status.claimed, status.completed), (Some(1), Some(2), Some(3)));
}

#[test]
fn request_lines_are_bounded_and_ended() {
    assert_eq!(request_text("{\"op\":\"status\"} \r\n").as_deref(), Some("{\"op\":\"status\"}"));
    assert_eq!(request_text("{}"), None);
    assert_eq!(request_text(""), None);
    assert_eq!(request_text("\n").as_deref(), Some(""));
    let fits = format!("{}\n", vec!["x"; MAX_REQUEST_BYTES - 1].concat());
    assert!(request_text(&fits).is_some());
    let over = format!("{}\n", vec!["x"; MAX_REQUEST_BYTES].concat());
    assert_eq!(request_text(&over), None);
    let wide = format!("{}\n", vec!["é"; 32_768].concat());
    assert_eq!(request_text(&wide), None);
    assert_eq!(response_line(b"{}".to_vec()), b"{}\n".to_vec());
}

#[test]
fn a_retry_repeats_the_transaction() {
    let mut ids = Vec::new();
    for _ in 0..2 {
        let mut store = store_with(&[("$zero", "text"), ("$one", "text")]);
        let (stage, _) = begin(&mut store, send("$one", "same", "answer"));
        match resume(&mut store, stage, OPENED).1 {
            Step::SendReply { body, transaction_id } => ids.push((body, transaction_id)),
            other => panic!("{other:?}"),
        }
    }
    assert_eq!(ids[0], ids[1]);
}

#[test]
fn refused_requests_change_nothing() {
    let mut store = store_with(&[("$one", "text")]);
    store.take_changes();
    for request in [
        send("$one", "", "x"),
        send("$none", "k", "x"),
        send("$one", "k", "x"),
        add("?", None),
        Request::ActivityStart { event_id: text("$one") },
        Request::ProjectRoomList,
    ] {
        let _ = begin(&mut store, request);
        assert!(store.take_changes().is_empty());
    }
}

#[test]
fn work_needs_a_joined_and_encrypted_room() {
    for (joined, encrypted) in [(false, false), (true, false), (false, true)] {
        let mut store = store_with(&[("$one", "text")]);
        store.claim_at(None, 3).unwrap();
        store.take_changes();
        for request in [
            Request::ActivityStart { event_id: text("$one") },
            heartbeat(None, false),
            send("$one", "k", "x"),
        ] {
            let (stage, step) = begin(&mut store, request);
            assert!(matches!(step, Step::OpenRoom { .. }));
            let (stage, step) = resume(&mut store, stage, Outcome::Opened { joined, encrypted });
            assert_failed(stage, step);
        }
        assert!(store.take_changes().is_empty());
    }
}
