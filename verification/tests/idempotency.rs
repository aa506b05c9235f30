use zero2prod::idempotency::BeginOutcome;
use zero2prod::response::{success_response, SavedResponse};
use zero2prod::store::{RecordState, Store};

#[test]
fn begin_reserves_a_fresh_key() {
    let mut store = Store::new();
    let outcome = store.begin(7, &"fresh-key".to_string(), 5);
    let handle = match outcome {
        BeginOutcome::Proceed(handle) => handle,
        BeginOutcome::Replay(_) => panic!("a fresh key must be reserved, not replayed"),
    };
    assert_eq!(handle.actor_id, 7);
    assert_eq!(handle.key, "fresh-key");
    assert_eq!(store.records.len(), 1);
    assert_eq!(store.records[0].created_at, 5);
    assert!(matches!(store.records[0].state, RecordState::Pending));
}

#[test]
fn finish_completes_the_record_and_begin_replays_it() {
    let mut store = Store::new();
    let key = "completed-key".to_string();
    let handle = match store.begin(7, &key, 0) {
        BeginOutcome::Proceed(handle) => handle,
        BeginOutcome::Replay(_) => panic!("a fresh key must be reserved"),
    };
    store.finish(handle, success_response());

    match store.begin(7, &key, 99) {
        BeginOutcome::Replay(cached) => {
            assert_eq!(cached.status, 303);
            assert_eq!(cached.location.as_deref(), Some("/admin/newsletters"));
            assert_eq!(
                cached.body,
                "<p><i>The newsletter issue has been published!</i></p>"
            );
        }
        BeginOutcome::Proceed(_) => panic!("a completed key must be replayed"),
    }
    // the record was created once and never duplicated
    assert_eq!(store.records.len(), 1);
}

#[test]
fn replayed_responses_are_byte_identical() {
    let mut store = Store::new();
    let key = "byte-identical".to_string();
    let handle = match store.begin(7, &key, 0) {
        BeginOutcome::Proceed(handle) => handle,
        BeginOutcome::Replay(_) => panic!("a fresh key must be reserved"),
    };
    let recorded = SavedResponse {
        status: 303,
        location: Some("/admin/newsletters".to_string()),
        body: "<p><i>The newsletter issue has been published!</i></p>".to_string(),
    };
    store.finish(handle, recorded.clone());

    for _ in 0..3 {
        match store.begin(7, &key, 1000) {
            BeginOutcome::Replay(cached) => {
                assert_eq!(cached.status, recorded.status);
                assert_eq!(cached.location, recorded.location);
                assert_eq!(cached.body, recorded.body);
            }
            BeginOutcome::Proceed(_) => panic!("a completed key must be replayed"),
        }
    }
}

#[test]
fn abandoned_pending_reservation_is_taken_over() {
    // a crashed holder never calls finish; the next submission of the key
    // takes the expired lease over instead of blocking forever
    let mut store = Store::new();
    let key = "abandoned-key".to_string();
    match store.begin(7, &key, 0) {
        BeginOutcome::Proceed(handle) => drop(handle),
        BeginOutcome::Replay(_) => panic!("a fresh key must be reserved"),
    }

    let handle = match store.begin(7, &key, 60) {
        BeginOutcome::Proceed(handle) => handle,
        BeginOutcome::Replay(_) => panic!("a pending key must be handed over"),
    };
    assert_eq!(store.records.len(), 1);
    store.finish(handle, success_response());
    assert!(matches!(store.records[0].state, RecordState::Completed(_)));
}

#[test]
fn keys_are_scoped_per_actor() {
    let mut store = Store::new();
    let key = "shared-key".to_string();
    let first = match store.begin(1, &key, 0) {
        BeginOutcome::Proceed(handle) => handle,
        BeginOutcome::Replay(_) => panic!("a fresh key must be reserved"),
    };
    store.finish(first, success_response());

    // the same key under another actor is a different logical command
    match store.begin(2, &key, 0) {
        BeginOutcome::Proceed(_) => {}
        BeginOutcome::Replay(_) => panic!("another actor's key must not replay"),
    }
    assert_eq!(store.records.len(), 2);
}
