use tickit_sync::db::Database;
use tickit_sync::error::SyncError;
use tickit_sync::models::{List, SyncRecord, SyncRequest};
use tickit_sync::timestamp::denotes_instant;

fn list(id: &str, name: &str, updated: &str) -> SyncRecord {
    SyncRecord::List(List {
        id: id.to_string(),
        name: name.to_string(),
        description: None,
        icon: "i".to_string(),
        color: None,
        is_inbox: false,
        created_at: updated.to_string(),
        updated_at: updated.to_string(),
        sort_order: 0,
    })
}

fn request(device: &str, last_sync: Option<&str>, changes: Vec<SyncRecord>) -> SyncRequest {
    SyncRequest {
        device_id: device.to_string(),
        last_sync: last_sync.map(|s| s.to_string()),
        changes,
    }
}

#[test]
fn two_devices_converge() {
    let mut db = Database::new();
    let a = db
        .sync_at(
            &request("A", None, vec![list("L1", "from a", "2024-01-01T00:00:01Z")]),
            "2024-01-01T00:00:02Z",
            "2024-01-01T00:00:02Z".to_string(),
        )
        .unwrap();
    assert!(a.conflicts.is_empty());
    assert_eq!(a.server_time, "2024-01-01T00:00:02Z");
    assert_eq!(a.changes.len(), 1);

    let b = db
        .sync_at(
            &request("B", None, vec![list("L1", "from b", "2024-01-01T00:00:00Z")]),
            "2024-01-01T00:00:03Z",
            "2024-01-01T00:00:03Z".to_string(),
        )
        .unwrap();
    assert_eq!(b.conflicts, vec!["L1".to_string()]);
    assert_eq!(b.changes.len(), 1);
    match &b.changes[0] {
        SyncRecord::List(l) => assert_eq!(l.name, "from a"),
        other => panic!("unexpected {:?}", other),
    }
    assert_eq!(db.last_sync_of("A"), Some("2024-01-01T00:00:02Z".to_string()));
    assert_eq!(db.last_sync_of("B"), Some("2024-01-01T00:00:03Z".to_string()));
}

#[test]
fn the_watermark_of_the_request_decides_what_is_sent() {
    let mut db = Database::new();
    db.sync_at(
        &request("A", None, vec![list("L1", "l", "2024-01-01T00:00:05Z")]),
        "2024-01-01T00:00:06Z",
        "2024-01-01T00:00:06Z".to_string(),
    )
    .unwrap();
    // What was recorded for the device plays no part: the request says 00:00:01.
    let again = db
        .sync_at(
            &request("A", Some("2024-01-01T00:00:01Z"), vec![]),
            "2024-01-01T00:00:07Z",
            "2024-01-01T00:00:07Z".to_string(),
        )
        .unwrap();
    assert_eq!(again.changes.len(), 1);
    let later = db
        .sync_at(
            &request("A", Some("2024-01-01T00:00:06Z"), vec![]),
            "2024-01-01T00:00:08Z",
            "2024-01-01T00:00:08Z".to_string(),
        )
        .unwrap();
    assert!(later.changes.is_empty());
    assert_eq!(db.last_sync_of("A"), Some("2024-01-01T00:00:08Z".to_string()));
}

#[test]
fn a_refused_request_changes_nothing() {
    let mut db = Database::new();
    let r = db.sync_at(
        &request("A", Some("soon"), vec![list("L1", "l", "2024-01-01T00:00:05Z")]),
        "2024-01-01T00:00:06Z",
        "2024-01-01T00:00:06Z".to_string(),
    );
    assert_eq!(r.err(), Some(SyncError::MalformedWatermark));
    let r = db.sync_at(
        &request("A", None, vec![list("L1", "l", "2024-01-01T00:00:05Z"), list("L2", "m", "?")]),
        "2024-01-01T00:00:06Z",
        "2024-01-01T00:00:06Z".to_string(),
    );
    assert_eq!(r.err(), Some(SyncError::MalformedRecord(1)));
    assert!(db.get_list("L1").is_none());
    assert!(db.last_sync_of("A").is_none());
}

#[test]
fn sync_reads_the_clock() {
    let mut db = Database::new();
    let answer = db.sync(&request("A", None, vec![list("L1", "l", "2024-01-01T00:00:05Z")])).unwrap();
    assert!(denotes_instant(&answer.server_time));
    assert_ne!(answer.server_time, "");
    assert_eq!(db.last_sync_of("A"), Some(answer.server_time.clone()));
    assert_eq!(answer.changes.len(), 1);
    // The server's time is a watermark for the next exchange.
    let next = db.sync(&request("A", Some(&answer.server_time), vec![])).unwrap();
    assert!(next.changes.is_empty());
}
