use pi_matrix_transport::clock::{epoch_of, now_epoch};
use pi_matrix_transport::files::{PRIVATE_DIRECTORY_MODE, PRIVATE_FILE_MODE};
use pi_matrix_transport::records::{
    Change, EventKind, EventState, InboundRow, OutboundRow, ProjectRoomBinding, RoomRow, Snapshot,
    StoreError,
};
use pi_matrix_transport::schema::{
    parse_kind, parse_state, plan_migration, state_name, Migration,
};
use pi_matrix_transport::store::{kind_name, StateStore};

const DEFAULT: &str = "!default:example.org";

fn rooms(ids: &[&str]) -> Vec<String> {
    ids.iter().map(|id| (*id).to_owned()).collect()
}

fn open(stored: Snapshot) -> StateStore {
    StateStore::open(stored, DEFAULT, &rooms(&[DEFAULT])).unwrap()
}

fn fresh() -> StateStore {
    open(Snapshot::empty())
}

fn row(sequence: i64, event_id: &str) -> InboundRow {
    InboundRow {
        sequence,
        event_id: event_id.to_owned(),
        room_id: DEFAULT.to_owned(),
        body: "body".to_owned(),
        kind: EventKind::Text,
        state: EventState::Queued,
        received_at: 1,
        claimed_at: None,
        outbound_event_id: None,
        image_mime: None,
        image_data: None,
    }
}

/// Writes changed rows the way a database would.
fn write(disk: &mut Snapshot, changes: Vec<Change>) {
    for change in changes {
        match change {
            Change::Inbound(row) => {
                match disk.inbound.iter().position(|old| old.sequence == row.sequence) {
                    Some(i) => disk.inbound[i] = row,
                    None => disk.inbound.push(row),
                }
            }
            Change::Outbound(row) => disk.outbound.push(row),
            Change::Room(row) => {
                match disk.rooms.iter().position(|old| old.room_id == row.room_id) {
                    Some(i) => disk.rooms[i] = row,
                    None => disk.rooms.push(row),
                }
            }
            Change::RoomRemoved(room_id) => disk.rooms.retain(|old| old.room_id != room_id),
            Change::Proactive(row) => disk.proactive.push(row),
        }
    }
}

#[test]
fn deduplicates_and_orders_inbound_events() {
    assert_eq!(PRIVATE_DIRECTORY_MODE & 0o777, 0o700);
    assert_eq!(PRIVATE_FILE_MODE & 0o777, 0o600);
    let mut store = fresh();
    assert!(store.enqueue("$z-first", "!default:example.org", "first", "text").unwrap());
    assert!(!store.enqueue("$z-first", "!default:example.org", "duplicate", "text").unwrap());
    assert!(store.contains_event("$z-first"));
    assert!(!store.contains_event("$missing"));
    assert!(store.enqueue("$a-second", "!default:example.org", "second", "voice").unwrap());
    let first = store.claim(None).unwrap().unwrap();
    assert_eq!(first.event_id, "$z-first");
    assert_eq!(first.kind, "text");
    assert_eq!(first.image, None);
    let second = store.claim(None).unwrap().unwrap();
    assert_eq!(second.event_id, "$a-second");
    assert_eq!(second.kind, "voice");
    assert!(store.claim(None).unwrap().is_none());
}

#[test]
fn migrates_existing_text_voice_queue_before_accepting_images() {
    let columns = rooms(&[
        "sequence",
        "event_id",
        "body",
        "state",
        "received_at",
        "claimed_at",
        "outbound_event_id",
        "kind",
        "room_id",
    ]);
    let statement = "CREATE TABLE inbound (kind TEXT NOT NULL DEFAULT 'text' CHECK(kind IN ('text','voice')))";
    assert_eq!(
        plan_migration(&columns, statement),
        Migration { add_kind: false, add_room_id: false, rebuild: true }
    );
    let mut stored = Snapshot::empty();
    let mut legacy_row = row(1, "$legacy");
    legacy_row.body = "legacy voice".to_owned();
    legacy_row.kind = parse_kind("voice").unwrap();
    stored.inbound.push(legacy_row);

    let mut store = open(stored);
    let legacy = store.claim(None).unwrap().unwrap();
    assert_eq!(legacy.event_id, "$legacy");
    assert_eq!(legacy.kind, "voice");
    assert!(store.release("$legacy"));
    assert!(store
        .enqueue_image("$image", "!default:example.org", "diagram.png", "image/png", b"png-bytes")
        .unwrap());
}

#[test]
fn persists_and_claims_image_bytes_as_base64() {
    let mut disk = Snapshot::empty();
    let mut store = fresh();
    assert!(store
        .enqueue_image("$image", "!default:example.org", "diagram.png", "image/png", b"png-bytes")
        .unwrap());
    write(&mut disk, store.take_changes());
    assert_eq!(disk.inbound[0].image_data, Some(b"png-bytes".to_vec()));
    let event = store.claim(None).unwrap().unwrap();
    assert_eq!(event.kind, "image");
    let image = event.image.unwrap();
    assert_eq!(image.media_type, "image/png");
    assert_eq!(image.data, "cG5nLWJ5dGVz");
    store.complete("$image", "reply:$image", "$out").unwrap();
    write(&mut disk, store.take_changes());
    let retained_bytes: Option<Vec<u8>> = disk.inbound[0].image_data.clone();
    assert_eq!(retained_bytes, None);
    assert_eq!(disk.inbound[0].image_mime, None);
}

#[test]
fn room_scoped_claims_are_isolated() {
    let mut store = StateStore::open(
        Snapshot::empty(),
        "!default:example.org",
        &rooms(&["!default:example.org", "!ea:example.org"]),
    )
    .unwrap();
    store.enqueue("$one", "!default:example.org", "general", "text").unwrap();
    store.enqueue("$two", "!ea:example.org", "enterprise", "text").unwrap();

    let scoped = store.claim(Some("!ea:example.org")).unwrap().unwrap();
    assert_eq!(scoped.event_id, "$two");
    assert_eq!(store.claim(Some("!ea:example.org")).unwrap(), None);

    let general = store.claim(Some("!default:example.org")).unwrap().unwrap();
    assert_eq!(general.event_id, "$one");
}

#[test]
fn releases_and_completes_idempotently() {
    let mut store = fresh();
    store.enqueue("$one", "!default:example.org", "first", "text").unwrap();
    store.claim(None).unwrap();
    assert!(store.release("$one"));
    store.claim(None).unwrap();
    store.complete("$one", "reply:$one", "$out").unwrap();
    assert_eq!(store.outbound_event("reply:$one").as_deref(), Some("$out"));
    assert_eq!(store.counts(), (0, 0, 1));
}

#[test]
fn startup_requeues_claimed_event() {
    let mut disk = Snapshot::empty();
    {
        let mut store = fresh();
        store.enqueue("$one", "!default:example.org", "first", "voice").unwrap();
        store.claim(None).unwrap();
        write(&mut disk, store.take_changes());
    }
    assert_eq!(disk.inbound[0].state, EventState::Claimed);
    let mut reopened = open(disk);
    assert_eq!(reopened.claim(None).unwrap().unwrap().event_id, "$one");
}

#[test]
fn claims_come_in_order_and_release_keeps_the_place() {
    let mut store = fresh();
    for (i, id) in ["$c", "$a", "$b"].iter().enumerate() {
        assert_eq!(store.enqueue_at(id, DEFAULT, "x", "text", i as i64), Ok(true));
    }
    assert_eq!(store.claim_at(None, 10).unwrap().event_id, "$c");
    assert_eq!(store.claim_at(None, 10).unwrap().event_id, "$a");
    assert!(store.release("$c"));
    assert!(!store.release("$c"));
    assert!(!store.release("$b"));
    assert!(!store.release("$missing"));
    assert_eq!(store.claim_at(None, 11).unwrap().event_id, "$c");
    assert_eq!(store.claim_at(None, 11).unwrap().event_id, "$b");
    assert_eq!(store.claim_at(None, 11), None);
    assert_eq!(store.counts(), (0, 3, 0));
}

#[test]
fn abandoned_claims_are_taken_back_after_two_hours() {
    let mut store = fresh();
    store.enqueue_at("$one", DEFAULT, "x", "text", 0).unwrap();
    assert!(store.claim_at(None, 1_000).is_some());
    assert_eq!(store.claim_at(None, 8_199), None);
    assert_eq!(store.claim_at(None, 8_200).unwrap().event_id, "$one");
}

#[test]
fn malformed_events_are_refused() {
    let mut store = fresh();
    assert_eq!(store.enqueue("$a", DEFAULT, "x", "image"), Err(StoreError::InvalidKind));
    assert_eq!(store.enqueue("$a", DEFAULT, "x", ""), Err(StoreError::InvalidKind));
    assert_eq!(store.enqueue("", DEFAULT, "x", "text"), Err(StoreError::InvalidEvent));
    assert_eq!(store.enqueue("$a", "", "x", "text"), Err(StoreError::InvalidEvent));
    assert_eq!(store.enqueue("$a", DEFAULT, " \n", "text"), Err(StoreError::InvalidEvent));
    store.upsert_room_binding("", None).unwrap();
    assert_eq!(store.enqueue("$a", "", "x", "text"), Err(StoreError::InvalidEvent));
    assert_eq!(
        store.enqueue_image("$a", DEFAULT, "x", "image/png", b""),
        Err(StoreError::InvalidImage)
    );
    assert_eq!(
        store.enqueue_image("$a", DEFAULT, "x", "", b"1"),
        Err(StoreError::InvalidImage)
    );
    assert_eq!(
        store.enqueue_image("$a", DEFAULT, "", "image/png", b"1"),
        Err(StoreError::InvalidEvent)
    );
    assert_eq!(store.counts(), (0, 0, 0));
}

#[test]
fn events_of_unbound_rooms_are_dropped() {
    let mut store = fresh();
    assert_eq!(store.enqueue("$a", "!other", "x", "text"), Ok(false));
    store.upsert_room_binding("!other", None).unwrap();
    assert!(store.room_enabled("!other"));
    assert_eq!(store.enqueue("$a", "!other", "x", "text"), Ok(true));
    assert!(store.remove_room_binding("!other"));
    assert!(!store.remove_room_binding("!other"));
    assert!(!store.room_enabled("!other"));
    assert_eq!(store.enqueue("$b", "!other", "x", "text"), Ok(false));
}

#[test]
fn disabled_rooms_take_nothing() {
    let mut stored = Snapshot::empty();
    stored.rooms.push(RoomRow {
        room_id: "!off".to_owned(),
        enabled: false,
        project_slug: Some("alpha".to_owned()),
        created_at: 1,
        updated_at: 1,
    });
    let mut store = open(stored);
    assert!(!store.room_enabled("!off"));
    assert_eq!(store.enqueue("$a", "!off", "x", "text"), Ok(false));
    assert_eq!(store.room_for_project("alpha"), None);
    assert_eq!(store.list_project_rooms(), vec![]);
    assert_eq!(
        store.upsert_room_binding("!new", Some("alpha")),
        Err(StoreError::SlugTaken)
    );
}

#[test]
fn only_claimed_events_complete() {
    let mut store = fresh();
    store.enqueue("$one", DEFAULT, "x", "text").unwrap();
    assert_eq!(store.complete("$one", "k", "$out"), Err(StoreError::NotClaimed));
    assert_eq!(store.complete("$missing", "k", "$out"), Err(StoreError::NotClaimed));
    assert_eq!(store.outbound_event("k"), None);
    assert_eq!(store.counts(), (1, 0, 0));
}

#[test]
fn the_first_answer_stays() {
    let mut store = fresh();
    store.enqueue_at("$one", DEFAULT, "x", "text", 1).unwrap();
    store.claim_at(None, 2).unwrap();
    store.complete_at("$one", "k", "$first", 3).unwrap();
    store.complete_at("$one", "k", "$second", 4).unwrap();
    assert_eq!(store.outbound_event("k").as_deref(), Some("$first"));
    assert_eq!(store.claim_at(None, 100_000), None);
    let source = store.source_context("$one").unwrap();
    assert_eq!((source.room_id.as_str(), source.kind.as_str()), (DEFAULT, "text"));
    assert_eq!(store.source_context("$missing"), None);
}

#[test]
fn proactive_messages_are_recorded_once() {
    let mut store = fresh();
    assert_eq!(store.proactive_outbound_event("k"), None);
    store.complete_proactive("k", "$first").unwrap();
    store.complete_proactive("k", "$second").unwrap();
    assert_eq!(store.proactive_outbound_event("k").as_deref(), Some("$first"));
    assert_eq!(store.outbound_event("k"), None);
}

#[test]
fn project_rooms_are_unique_and_sorted() {
    let mut store = fresh();
    store.upsert_room_binding_at("!b", Some("beta"), 5).unwrap();
    store.upsert_room_binding_at("!a", Some("alpha"), 6).unwrap();
    assert_eq!(
        store.upsert_room_binding_at("!c", Some("beta"), 7),
        Err(StoreError::SlugTaken)
    );
    assert_eq!(store.room_for_project("beta").as_deref(), Some("!b"));
    assert_eq!(store.room_for_project("gamma"), None);
    let listed = store.list_project_rooms();
    assert_eq!(
        listed,
        vec![
            ProjectRoomBinding { project_slug: "alpha".to_owned(), room_id: "!a".to_owned() },
            ProjectRoomBinding { project_slug: "beta".to_owned(), room_id: "!b".to_owned() },
        ]
    );
    // A room that is bound anew keeps the time of its creation and loses its project.
    store.upsert_room_binding_at("!b", None, 9).unwrap();
    assert_eq!(store.room_for_project("beta"), None);
    let mut disk = Snapshot::empty();
    write(&mut disk, store.take_changes());
    let bound = disk.rooms.iter().find(|room| room.room_id == "!b").unwrap();
    assert_eq!((bound.created_at, bound.updated_at), (5, 9));
    assert_eq!(bound.project_slug, None);
}

#[test]
fn changes_rebuild_the_store() {
    let mut disk = Snapshot::empty();
    let mut store = fresh();
    store.enqueue_at("$one", DEFAULT, "x", "text", 1).unwrap();
    store.enqueue_at("$two", DEFAULT, "y", "voice", 2).unwrap();
    write(&mut disk, store.take_changes());
    assert!(store.take_changes().is_empty());
    store.claim_at(None, 3).unwrap();
    store.complete_at("$one", "k", "$out", 4).unwrap();
    store.upsert_room_binding_at("!p", Some("proj"), 5).unwrap();
    store.remove_room_binding("!p");
    store.complete_proactive_at("p", "$pro", 6);
    write(&mut disk, store.take_changes());
    assert_eq!(disk.rooms.len(), 1);
    let mut reopened = open(disk);
    assert_eq!(reopened.counts(), (1, 0, 1));
    assert_eq!(reopened.outbound_event("k").as_deref(), Some("$out"));
    assert_eq!(reopened.proactive_outbound_event("p").as_deref(), Some("$pro"));
    assert_eq!(reopened.claim_at(None, 7).unwrap().event_id, "$two");
    // Numbering goes on behind what is there.
    reopened.take_changes();
    reopened.enqueue_at("$three", DEFAULT, "z", "text", 8).unwrap();
    match &reopened.take_changes()[..] {
        [Change::Inbound(row)] => assert_eq!(row.sequence, 3),
        other => panic!("{other:?}"),
    }
}

#[test]
fn opening_fills_in_the_default_room() {
    let mut stored = Snapshot::empty();
    let mut old = row(4, "$old");
    old.room_id = String::new();
    stored.inbound.push(old);
    let mut store = open(stored);
    assert_eq!(store.claim(None).unwrap().unwrap().room_id, DEFAULT);
}

#[test]
fn unsound_rows_are_refused() {
    let mut twice = Snapshot::empty();
    twice.inbound.push(row(1, "$a"));
    twice.inbound.push(row(2, "$a"));
    assert!(!twice.is_sound());
    assert_eq!(
        StateStore::open_at(twice, DEFAULT, &rooms(&[]), 0).map(|_| ()).unwrap_err(),
        StoreError::Corrupt
    );

    let mut disorder = Snapshot::empty();
    disorder.inbound.push(row(2, "$a"));
    disorder.inbound.push(row(1, "$b"));
    assert!(!disorder.is_sound());

    let mut keys = Snapshot::empty();
    for _ in 0..2 {
        keys.outbound.push(OutboundRow {
            idempotency_key: "k".to_owned(),
            source_event_id: "$a".to_owned(),
            matrix_event_id: "$b".to_owned(),
            sent_at: 0,
        });
    }
    assert!(!keys.is_sound());
    assert!(Snapshot::empty().is_sound());
}

#[test]
fn sequence_numbers_can_run_out() {
    let mut stored = Snapshot::empty();
    stored.inbound.push(row(i64::MAX, "$last"));
    let mut store = open(stored);
    assert_eq!(
        store.enqueue_at("$more", DEFAULT, "x", "text", 0),
        Err(StoreError::SequenceExhausted)
    );
}

#[test]
fn names_read_back() {
    for kind in [EventKind::Text, EventKind::Voice, EventKind::Image] {
        assert_eq!(parse_kind(&kind_name(kind)), Some(kind));
    }
    for state in [EventState::Queued, EventState::Claimed, EventState::Completed] {
        assert_eq!(parse_state(state_name(state)), Some(state));
    }
    assert_eq!(parse_kind("Text"), None);
    assert_eq!(parse_state(""), None);
    assert_eq!(state_name(EventState::Queued), "queued");
}

#[test]
fn older_tables_are_brought_up_to_date() {
    let columns = rooms(&["sequence", "event_id"]);
    assert_eq!(
        plan_migration(&columns, "CREATE TABLE inbound (x)"),
        Migration { add_kind: true, add_room_id: true, rebuild: true }
    );
    let current = rooms(&["kind", "room_id"]);
    assert_eq!(
        plan_migration(&current, "CHECK(kind IN ('text','voice','image'))"),
        Migration { add_kind: false, add_room_id: false, rebuild: false }
    );
}

#[test]
fn readings_of_the_clock_are_seconds() {
    assert_eq!(epoch_of(Some(0)), Ok(0));
    assert_eq!(epoch_of(Some(1_700_000_000)), Ok(1_700_000_000));
    assert_eq!(epoch_of(Some(i64::MAX as u64)), Ok(i64::MAX));
    assert_eq!(epoch_of(Some(u64::MAX)), Ok(-1));
    assert_eq!(epoch_of(None), Err(StoreError::Clock));
}

#[test]
fn the_clock_stands_in_this_century() {
    let now = now_epoch().unwrap();
    assert!(now > 1_600_000_000);
}

#[test]
fn images_are_encoded_with_padding() {
    let mut store = fresh();
    let cases: [(&str, &[u8], &str); 5] = [
        ("$a", b"f", "Zg=="),
        ("$b", b"fo", "Zm8="),
        ("$c", b"foo", "Zm9v"),
        ("$d", b"foob", "Zm9vYg=="),
        ("$e", &[0xfb, 0xff, 0xfe], "+//+"),
    ];
    for (event_id, data, _) in cases {
        assert_eq!(store.enqueue_image_at(event_id, DEFAULT, "x", "image/gif", data, 1), Ok(true));
    }
    for (event_id, _, encoded) in cases {
        let event = store.claim_at(None, 2).unwrap();
        assert_eq!(event.event_id, event_id);
        assert_eq!(event.image.unwrap().data, encoded);
    }
}

#[test]
fn rows_are_restored_as_they_are() {
    let mut stored = Snapshot::empty();
    let mut claimed = row(1, "$one");
    claimed.state = EventState::Claimed;
    claimed.claimed_at = Some(5);
    stored.inbound.push(claimed);
    let mut store = StateStore::restore(stored).unwrap();
    assert_eq!(store.counts(), (0, 1, 0));
    assert!(store.take_changes().is_empty());
    let mut broken = Snapshot::empty();
    broken.inbound.push(row(1, "$one"));
    broken.inbound.push(row(1, "$two"));
    assert!(matches!(StateStore::restore(broken), Err(StoreError::Corrupt)));
}

#[test]
fn a_restart_changes_nothing_else() {
    let mut stored = Snapshot::empty();
    let mut claimed = row(3, "$one");
    claimed.kind = EventKind::Image;
    claimed.state = EventState::Claimed;
    claimed.claimed_at = Some(5);
    claimed.received_at = 4;
    claimed.image_mime = Some("image/png".to_owned());
    claimed.image_data = Some(vec![1, 2]);
    let mut done = row(7, "$two");
    done.state = EventState::Completed;
    done.outbound_event_id = Some("$answer".to_owned());
    stored.inbound.push(claimed);
    stored.inbound.push(done);
    let mut store = StateStore::open_at(stored, DEFAULT, &rooms(&[]), 9).unwrap();
    match &store.take_changes()[..] {
        [Change::Inbound(changed)] => {
            let mut expected = row(3, "$one");
            expected.kind = EventKind::Image;
            expected.received_at = 4;
            expected.image_mime = Some("image/png".to_owned());
            expected.image_data = Some(vec![1, 2]);
            assert_eq!(*changed, expected);
        }
        other => panic!("{other:?}"),
    }
    assert_eq!(store.counts(), (1, 0, 1));
}

#[test]
fn release_clears_a_stray_claim_time() {
    let mut stored = Snapshot::empty();
    let mut stray = row(1, "$one");
    stray.claimed_at = Some(5);
    stored.inbound.push(stray);
    let mut store = StateStore::restore(stored).unwrap();
    assert_eq!(store.claim_at(None, 9).unwrap().event_id, "$one");
    assert!(store.release("$one"));
    let last = store.take_changes().pop().unwrap();
    assert_eq!(last, Change::Inbound(row(1, "$one")));
}
