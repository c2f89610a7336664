use mailgate::engine::{SyncDecision, SyncEngine};
use mailgate::errors::SyncError;
use mailgate::models::Email;
use mailgate::sync::FlagField;

fn msg(id: &str, subject: &str, from: &str, date: i64, unread: bool) -> Email {
    Email {
        id: id.to_string(),
        from: from.to_string(),
        to: vec!["me@mythofy.net".to_string()],
        subject: subject.to_string(),
        preview: format!("{} preview", subject),
        body: None,
        date,
        unread,
        starred: false,
        folder: "inbox".to_string(),
        has_attachments: false,
    }
}

/// Brings one folder to a synced state holding the given messages.
fn seeded(ident: &str, folder: &str, msgs: Vec<Email>, now: u64) -> SyncEngine {
    let mut eng = SyncEngine::new();
    match eng.list_folder(ident, folder, true, now) {
        SyncDecision::Fetch(mark) => assert_eq!(mark, 0),
        _ => panic!("first listing must fetch"),
    }
    eng.apply_fetch_success(ident, folder, &msgs, 100, now);
    eng
}

#[test]
fn test_single_inflight_fetch() {
    let mut eng = SyncEngine::new();
    // First request starts the one fetch.
    assert!(matches!(eng.list_folder("u1", "inbox", true, 1000), SyncDecision::Fetch(0)));
    // Concurrent forced requests wait instead of fetching again.
    assert!(matches!(eng.list_folder("u1", "inbox", true, 1000), SyncDecision::Busy));
    assert!(matches!(eng.list_folder("u1", "inbox", false, 1000), SyncDecision::Busy));
    // Once the result lands, everyone is served the same snapshot.
    eng.apply_fetch_success("u1", "inbox", &vec![msg("m1", "Hello", "a@b.c", 5, true)], 7, 1000);
    match eng.list_folder("u1", "inbox", false, 1001) {
        SyncDecision::Serve(v) => {
            assert_eq!(v.len(), 1);
            assert_eq!(v[0].id, "m1");
        },
        _ => panic!("snapshot must be served"),
    }
}

#[test]
fn test_freshness_cache() {
    let now = 10_000;
    let mut eng = seeded(
        "u1",
        "inbox",
        vec![msg("m1", "One", "a@b.c", 5, true), msg("m2", "Two", "d@e.f", 6, false)],
        now,
    );
    let first = match eng.list_folder("u1", "inbox", false, now + 10) {
        SyncDecision::Serve(v) => v,
        _ => panic!("within the window the snapshot is served"),
    };
    let second = match eng.list_folder("u1", "inbox", false, now + 50) {
        SyncDecision::Serve(v) => v,
        _ => panic!("still within the window: no second fetch"),
    };
    assert_eq!(first.len(), second.len());
    for (a, b) in first.iter().zip(second.iter()) {
        assert_eq!(a.id, b.id);
        assert_eq!(a.unread, b.unread);
        assert_eq!(a.starred, b.starred);
    }
    // Past the window an unforced listing fetches again.
    assert!(matches!(
        eng.list_folder("u1", "inbox", false, now + 60),
        SyncDecision::Fetch(100)
    ));
}

#[test]
fn test_incremental_merge_order() {
    // Server order is oldest first; the served snapshot is newest first.
    let mut eng = seeded(
        "u1",
        "inbox",
        vec![msg("m2", "Older", "d@e.f", 4, false), msg("m1", "Old", "a@b.c", 5, true)],
        1000,
    );
    // A forced refetch brings two new messages (server order: oldest first)
    // and re-sends m1 with the read flag confirmed.
    match eng.list_folder("u1", "inbox", true, 2000) {
        SyncDecision::Fetch(_) => {},
        _ => panic!("forced listing fetches"),
    }
    let mut refreshed = msg("m1", "Old", "a@b.c", 5, false);
    refreshed.starred = true;
    eng.apply_fetch_success(
        "u1",
        "inbox",
        &vec![refreshed, msg("m3", "New", "g@h.i", 8, true), msg("m4", "Newest", "j@k.l", 9, true)],
        200,
        2000,
    );
    match eng.list_folder("u1", "inbox", false, 2001) {
        SyncDecision::Serve(v) => {
            // New messages in front, newest first; old order kept behind them.
            let ids: Vec<&str> = v.iter().map(|e| e.id.as_str()).collect();
            assert_eq!(ids, vec!["m4", "m3", "m1", "m2"]);
            // Server state won for the re-sent message.
            assert!(!v[2].unread);
            assert!(v[2].starred);
        },
        _ => panic!("snapshot must be served"),
    }
}

#[test]
fn test_optimistic_rollback() {
    let mut eng = seeded("u1", "inbox", vec![msg("m1", "Hello", "a@b.c", 5, true)], 1000);
    // The optimistic change is visible at once.
    eng.mutate("u1", "m1", Some(true), None).expect("message exists");
    match eng.list_folder("u1", "inbox", false, 1001) {
        SyncDecision::Serve(v) => assert!(!v[0].unread),
        _ => panic!("snapshot must be served"),
    }
    // The remote propagation fails: the flag reverts to its prior value.
    eng.apply_mutation_result("u1", "m1", FlagField::Read, false);
    match eng.list_folder("u1", "inbox", false, 1002) {
        SyncDecision::Serve(v) => assert!(v[0].unread),
        _ => panic!("snapshot must be served"),
    }
}

#[test]
fn test_mutation_confirmed() {
    let mut eng = seeded("u1", "inbox", vec![msg("m1", "Hello", "a@b.c", 5, true)], 1000);
    eng.mutate("u1", "m1", None, Some(true)).expect("message exists");
    eng.apply_mutation_result("u1", "m1", FlagField::Starred, true);
    match eng.list_folder("u1", "inbox", false, 1001) {
        SyncDecision::Serve(v) => assert!(v[0].starred),
        _ => panic!("snapshot must be served"),
    }
}

#[test]
fn test_mutate_missing_message() {
    let mut eng = seeded("u1", "inbox", vec![msg("m1", "Hello", "a@b.c", 5, true)], 1000);
    assert_eq!(eng.mutate("u1", "nope", Some(true), None), Err(SyncError::NotFound));
    assert_eq!(eng.mutate("other", "m1", Some(true), None), Err(SyncError::NotFound));
}

#[test]
fn test_delete_rejected_keeps_message() {
    let mut eng = seeded(
        "u1",
        "inbox",
        vec![msg("m1", "One", "a@b.c", 5, true), msg("m2", "Two", "d@e.f", 6, false)],
        1000,
    );
    // The delete request is acknowledged while the message stays put.
    eng.delete("u1", "m1").expect("message exists");
    // The remote server rejects the delete: the next listing still shows it.
    eng.apply_delete_result("u1", "m1", false);
    match eng.list_folder("u1", "inbox", false, 1001) {
        SyncDecision::Serve(v) => {
            assert_eq!(v.len(), 2);
            assert!(v.iter().any(|e| e.id == "m1"));
        },
        _ => panic!("snapshot must be served"),
    }
    // A confirmed delete finally removes it.
    eng.apply_delete_result("u1", "m1", true);
    match eng.list_folder("u1", "inbox", false, 1002) {
        SyncDecision::Serve(v) => {
            assert_eq!(v.len(), 1);
            assert_eq!(v[0].id, "m2");
        },
        _ => panic!("snapshot must be served"),
    }
}

#[test]
fn test_delete_unknown() {
    let eng = SyncEngine::new();
    assert_eq!(eng.delete("u1", "m1"), Err(SyncError::NotFound));
}

#[test]
fn test_search_case_insensitive() {
    let mut eng = seeded(
        "u1",
        "inbox",
        vec![
            msg("m1", "Marketing Campaign Review", "sarah@example.com", 5, true),
            msg("m2", "Project Kickoff Agenda", "team@mythofy.net", 6, false),
        ],
        1000,
    );
    let hits = eng.search("u1", "marketing");
    assert_eq!(hits.len(), 1);
    assert_eq!(hits[0].id, "m1");
    // Sender matches count too, case-insensitively.
    let hits = eng.search("u1", "TEAM@");
    assert_eq!(hits.len(), 1);
    assert_eq!(hits[0].id, "m2");
    // No match, no result; other identities see nothing.
    assert!(eng.search("u1", "zzz").is_empty());
    assert!(eng.search("someone-else", "marketing").is_empty());
    // An empty query matches everything.
    assert_eq!(eng.search("u1", "").len(), 2);
}
