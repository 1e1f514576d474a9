use tickit_sync::db::Database;
use tickit_sync::error::SyncError;
use tickit_sync::idempotence::{is_present, is_settled};
use tickit_sync::models::{List, Priority, RecordType, SyncRecord, Tag, Task, TaskTagLink};

fn at(seconds: u32) -> String {
    format!("1970-01-01T00:00:{:02}Z", seconds)
}

fn task(id: &str, title: &str, updated: u32, tags: &[&str]) -> Task {
    Task {
        id: id.to_string(),
        title: title.to_string(),
        description: None,
        url: None,
        priority: Priority::Medium,
        completed: false,
        list_id: "L1".to_string(),
        tag_ids: tags.iter().map(|t| t.to_string()).collect(),
        created_at: at(updated),
        updated_at: at(updated),
        completed_at: None,
        due_date: None,
    }
}

fn list(id: &str, name: &str, inbox: bool, updated: u32) -> List {
    List {
        id: id.to_string(),
        name: name.to_string(),
        description: None,
        icon: "x".to_string(),
        color: None,
        is_inbox: inbox,
        created_at: at(updated),
        updated_at: at(updated),
        sort_order: 0,
    }
}

fn tag(id: &str, name: &str, created: u32) -> Tag {
    Tag {
        id: id.to_string(),
        name: name.to_string(),
        color: "red".to_string(),
        created_at: at(created),
        updated_at: None,
    }
}

fn deletion(id: &str, record_type: RecordType, deleted: u32) -> SyncRecord {
    SyncRecord::Deleted { id: id.to_string(), record_type, deleted_at: at(deleted) }
}

#[test]
fn first_task_is_stored_and_an_older_change_loses() {
    let mut db = Database::new();
    let conflicts = db.apply_changes(&[SyncRecord::Task(task("T1", "first", 10, &[]))]).unwrap();
    assert!(conflicts.is_empty());
    let stored = db.get_task("T1").unwrap();
    assert_eq!(stored.updated_at, at(10));
    assert_eq!(stored.title, "first");

    let conflicts = db.apply_changes(&[SyncRecord::Task(task("T1", "X", 5, &[]))]).unwrap();
    assert_eq!(conflicts, vec!["T1".to_string()]);
    let stored = db.get_task("T1").unwrap();
    assert_eq!(stored.updated_at, at(10));
    assert_eq!(stored.title, "first");
}

#[test]
fn deleted_inbox_stays_and_is_reported() {
    let mut db = Database::new();
    db.apply_changes(&[SyncRecord::List(list("L1", "Inbox", true, 1))]).unwrap();
    db.apply_changes(&[deletion("L1", RecordType::List, 2)]).unwrap();
    assert!(db.get_list("L1").is_some());
    let changes = db.get_changes_since(Some("1970-01-01T00:00:00Z")).unwrap();
    assert!(changes.iter().any(|c| matches!(c,
        SyncRecord::Deleted { id, record_type: RecordType::List, .. } if id == "L1")));
}

#[test]
fn equal_time_loses() {
    let mut db = Database::new();
    db.apply_changes(&[SyncRecord::List(list("L1", "a", false, 7))]).unwrap();
    let conflicts = db.apply_changes(&[SyncRecord::List(list("L1", "b", false, 7))]).unwrap();
    assert_eq!(conflicts, vec!["L1".to_string()]);
    assert_eq!(db.get_list("L1").unwrap().name, "a");
}

#[test]
fn later_change_overwrites_but_keeps_creation_and_inbox() {
    let mut db = Database::new();
    db.apply_changes(&[SyncRecord::List(list("L1", "a", true, 1))]).unwrap();
    let conflicts = db.apply_changes(&[SyncRecord::List(list("L1", "b", false, 9))]).unwrap();
    assert!(conflicts.is_empty());
    let stored = db.get_list("L1").unwrap();
    assert_eq!(stored.name, "b");
    assert_eq!(stored.updated_at, at(9));
    assert_eq!(stored.created_at, at(1));
    assert!(stored.is_inbox);
}

#[test]
fn instants_decide_not_the_spelling() {
    let mut db = Database::new();
    let mut first = list("L1", "a", false, 0);
    first.updated_at = "2024-03-01T12:00:00+02:00".to_string();
    db.apply_changes(&[SyncRecord::List(first)]).unwrap();
    // 10:30 UTC is later than 12:00 at +02:00, though it sorts before it as text.
    let mut second = list("L1", "b", false, 0);
    second.updated_at = "2024-03-01T10:30:00Z".to_string();
    let conflicts = db.apply_changes(&[SyncRecord::List(second)]).unwrap();
    assert!(conflicts.is_empty());
    assert_eq!(db.get_list("L1").unwrap().name, "b");
    // 09:59 UTC is earlier than both.
    let mut third = list("L1", "c", false, 0);
    third.updated_at = "2024-03-01T09:59:59.999Z".to_string();
    let conflicts = db.apply_changes(&[SyncRecord::List(third)]).unwrap();
    assert_eq!(conflicts, vec!["L1".to_string()]);
}

#[test]
fn batch_is_applied_by_kind() {
    let mut db = Database::new();
    // The deletion stands first in the batch and is applied last.
    let conflicts = db
        .apply_changes(&[
            deletion("T1", RecordType::Task, 3),
            SyncRecord::Task(task("T1", "t", 2, &["G1"])),
            SyncRecord::Tag(tag("G1", "g", 1)),
            SyncRecord::List(list("L1", "l", false, 1)),
        ])
        .unwrap();
    assert!(conflicts.is_empty());
    assert!(db.get_task("T1").is_none());
    assert!(db.get_tag("G1").is_some());
    assert!(db.get_list("L1").is_some());
    assert!(db.get_tombstone("T1", RecordType::Task).is_some());
}

#[test]
fn empty_tag_set_clears_memberships() {
    let mut db = Database::new();
    db.apply_changes(&[SyncRecord::Task(task("T1", "t", 1, &["G1", "G2", "G1"]))]).unwrap();
    assert_eq!(db.task_tag_ids("T1"), vec!["G1".to_string(), "G2".to_string()]);
    db.apply_changes(&[SyncRecord::Task(task("T1", "t", 2, &[]))]).unwrap();
    assert!(db.task_tag_ids("T1").is_empty());
    assert!(db.get_task("T1").unwrap().tag_ids.is_empty());
}

#[test]
fn rejected_task_keeps_memberships() {
    let mut db = Database::new();
    db.apply_changes(&[SyncRecord::Task(task("T1", "t", 10, &["G1"]))]).unwrap();
    let conflicts = db.apply_changes(&[SyncRecord::Task(task("T1", "t", 5, &[]))]).unwrap();
    assert_eq!(conflicts, vec!["T1".to_string()]);
    assert_eq!(db.task_tag_ids("T1"), vec!["G1".to_string()]);
}

#[test]
fn tag_is_replaced_whatever_the_times() {
    let mut db = Database::new();
    db.apply_changes(&[SyncRecord::Tag(tag("G1", "new", 9))]).unwrap();
    let conflicts = db.apply_changes(&[SyncRecord::Tag(tag("G1", "old", 1))]).unwrap();
    assert!(conflicts.is_empty());
    assert_eq!(db.get_tag("G1").unwrap().name, "old");
}

#[test]
fn membership_is_added_once() {
    let mut db = Database::new();
    let link = |stamp: u32| {
        SyncRecord::TaskTag(TaskTagLink {
            task_id: "T1".to_string(),
            tag_id: "G1".to_string(),
            created_at: at(stamp),
        })
    };
    let conflicts = db.apply_changes(&[link(1), link(2)]).unwrap();
    assert!(conflicts.is_empty());
    assert_eq!(db.task_tag_ids("T1"), vec!["G1".to_string()]);
    assert!(db.has_task_tag("T1", "G1"));
    assert!(!db.has_task_tag("T1", "G2"));
}

#[test]
fn task_tag_deletion_removes_the_memberships_of_the_task() {
    let mut db = Database::new();
    db.apply_changes(&[
        SyncRecord::Task(task("T1", "t", 1, &["G1", "G2"])),
        SyncRecord::Task(task("T2", "u", 1, &["G1"])),
    ])
    .unwrap();
    db.apply_changes(&[deletion("T1", RecordType::TaskTag, 2)]).unwrap();
    assert!(db.task_tag_ids("T1").is_empty());
    assert_eq!(db.task_tag_ids("T2"), vec!["G1".to_string()]);
    assert!(db.get_task("T1").is_some());
}

#[test]
fn malformed_record_refuses_the_whole_batch() {
    let mut db = Database::new();
    let mut bad = task("T2", "bad", 1, &[]);
    bad.updated_at = "yesterday".to_string();
    let r = db.apply_changes(&[
        SyncRecord::Task(task("T1", "good", 1, &[])),
        SyncRecord::Task(bad),
    ]);
    assert_eq!(r, Err(SyncError::MalformedRecord(1)));
    assert!(db.get_task("T1").is_none());
}

#[test]
fn malformed_watermark_is_refused() {
    let db = Database::new();
    assert_eq!(db.get_changes_since(Some("10")).err(), Some(SyncError::MalformedWatermark));
}

#[test]
fn second_application_changes_nothing_and_reports_every_change() {
    let batch = vec![
        SyncRecord::Task(task("T1", "t", 4, &["G1"])),
        SyncRecord::List(list("L1", "l", false, 2)),
        SyncRecord::Tag(tag("G1", "first", 1)),
        SyncRecord::Tag(tag("G1", "second", 1)),
        SyncRecord::List(list("L2", "m", true, 3)),
        deletion("T9", RecordType::Task, 5),
    ];
    let mut db = Database::new();
    let first = db.apply_changes_at(&batch, &at(6)).unwrap();
    assert!(first.is_empty());
    let lists_once = db.collect_lists(None);
    let tags_once = db.collect_tags(None);
    let tasks_once = db.collect_tasks(None);
    let links_once = db.collect_task_tags();
    let tombstones_once = db.collect_tombstones(None);

    assert!(is_settled(&db, &batch));
    let second = db.apply_changes_at(&batch, &at(7)).unwrap();
    assert_eq!(second, vec!["L1".to_string(), "L2".to_string(), "T1".to_string()]);
    let lists_twice = db.collect_lists(None);
    assert_eq!(lists_twice.len(), lists_once.len());
    for (a, b) in lists_once.iter().zip(lists_twice.iter()) {
        assert_eq!((&a.id, &a.name, &a.updated_at), (&b.id, &b.name, &b.updated_at));
    }
    let tags_twice = db.collect_tags(None);
    assert_eq!(tags_twice.len(), 1);
    assert_eq!(tags_once[0].name, "second");
    assert_eq!(tags_twice[0].name, "second");
    let tasks_twice = db.collect_tasks(None);
    assert_eq!(tasks_twice.len(), tasks_once.len());
    assert_eq!(tasks_twice[0].tag_ids, tasks_once[0].tag_ids);
    let links_twice = db.collect_task_tags();
    assert_eq!(links_twice.len(), links_once.len());
    assert_eq!(links_twice[0].created_at, at(6));
    let tombstones_twice = db.collect_tombstones(None);
    assert_eq!(tombstones_twice.len(), tombstones_once.len());
    assert_eq!(tombstones_twice[0].deleted_at, tombstones_once[0].deleted_at);
}

#[test]
fn the_later_change_wins_in_either_order() {
    let older = task("T1", "older", 3, &["G1"]);
    let newer = task("T1", "newer", 8, &["G2"]);

    let mut one = Database::new();
    one.apply_changes_at(&[SyncRecord::Task(older.clone())], &at(9)).unwrap();
    let c = one.apply_changes_at(&[SyncRecord::Task(newer.clone())], &at(9)).unwrap();
    assert!(c.is_empty());

    let mut other = Database::new();
    other.apply_changes_at(&[SyncRecord::Task(newer)], &at(9)).unwrap();
    let c = other.apply_changes_at(&[SyncRecord::Task(older)], &at(9)).unwrap();
    assert_eq!(c, vec!["T1".to_string()]);

    for db in [&one, &other] {
        let stored = db.get_task("T1").unwrap();
        assert_eq!(stored.title, "newer");
        assert_eq!(stored.updated_at, at(8));
        assert_eq!(stored.tag_ids, vec!["G2".to_string()]);
    }
}

#[test]
fn two_changes_to_one_list_in_one_batch() {
    let mut db = Database::new();
    let conflicts = db
        .apply_changes(&[
            SyncRecord::List(list("L1", "late", false, 9)),
            SyncRecord::List(list("L1", "early", false, 2)),
        ])
        .unwrap();
    assert_eq!(conflicts, vec!["L1".to_string()]);
    assert_eq!(db.get_list("L1").unwrap().name, "late");
}

#[test]
fn deletion_is_told_after_an_earlier_watermark_only() {
    let mut db = Database::new();
    db.apply_changes(&[SyncRecord::Tag(tag("G1", "g", 1))]).unwrap();
    db.apply_changes(&[deletion("G1", RecordType::Tag, 5)]).unwrap();
    assert!(db.get_tag("G1").is_none());
    let told = |changes: &[SyncRecord]| {
        changes.iter().any(|c| matches!(c,
            SyncRecord::Deleted { id, record_type: RecordType::Tag, .. } if id == "G1"))
    };
    assert!(told(&db.get_changes_since(Some(&at(4))).unwrap()));
    assert!(told(&db.get_changes_since(None).unwrap()));
    assert!(!told(&db.get_changes_since(Some(&at(5))).unwrap()));
    assert!(!told(&db.get_changes_since(Some(&at(6))).unwrap()));
}

#[test]
fn a_second_deletion_writes_its_time_into_the_tombstone() {
    let mut db = Database::new();
    db.apply_changes(&[deletion("T1", RecordType::Task, 5)]).unwrap();
    db.apply_changes(&[deletion("T1", RecordType::Task, 3)]).unwrap();
    db.apply_changes(&[deletion("T1", RecordType::List, 4)]).unwrap();
    assert_eq!(db.get_tombstone("T1", RecordType::Task).unwrap().deleted_at, at(3));
    assert_eq!(db.get_tombstone("T1", RecordType::List).unwrap().deleted_at, at(4));
    assert!(db.get_tombstone("T1", RecordType::Tag).is_none());
    assert_eq!(db.collect_tombstones(None).len(), 2);
}

#[test]
fn deleting_a_list_that_is_no_inbox_removes_it() {
    let mut db = Database::new();
    db.apply_changes(&[SyncRecord::List(list("L1", "l", false, 1))]).unwrap();
    db.apply_changes(&[deletion("L1", RecordType::List, 2)]).unwrap();
    assert!(db.get_list("L1").is_none());
    assert!(db.get_tombstone("L1", RecordType::List).is_some());
}

#[test]
fn deleting_a_task_leaves_the_rest() {
    let mut db = Database::new();
    db.apply_changes(&[
        SyncRecord::Task(task("T1", "a", 1, &[])),
        SyncRecord::Task(task("T2", "b", 1, &[])),
        SyncRecord::Task(task("T3", "c", 1, &[])),
    ])
    .unwrap();
    db.apply_changes(&[deletion("T2", RecordType::Task, 2)]).unwrap();
    let left: Vec<String> = db.collect_tasks(None).into_iter().map(|t| t.id).collect();
    assert_eq!(left, vec!["T1".to_string(), "T3".to_string()]);
}

#[test]
fn malformed_records_of_each_kind() {
    let mut db = Database::new();
    let mut l = list("L1", "l", false, 1);
    l.created_at = "".to_string();
    assert_eq!(db.apply_changes(&[SyncRecord::List(l)]), Err(SyncError::MalformedRecord(0)));
    let mut g = tag("G1", "g", 1);
    g.updated_at = Some("never".to_string());
    assert_eq!(db.apply_changes(&[SyncRecord::Tag(g)]), Err(SyncError::MalformedRecord(0)));
    let mut t = task("T1", "t", 1, &[]);
    t.due_date = Some("2024-02-30T00:00:00Z".to_string());
    assert_eq!(db.apply_changes(&[SyncRecord::Task(t)]), Err(SyncError::MalformedRecord(0)));
    let k = TaskTagLink {
        task_id: "T1".to_string(),
        tag_id: "G1".to_string(),
        created_at: "1970-01-01".to_string(),
    };
    assert_eq!(db.apply_changes(&[SyncRecord::TaskTag(k)]), Err(SyncError::MalformedRecord(0)));
    let d = SyncRecord::Deleted {
        id: "T1".to_string(),
        record_type: RecordType::Task,
        deleted_at: "5".to_string(),
    };
    assert_eq!(
        db.apply_changes(&[SyncRecord::Tag(tag("G1", "g", 1)), d]),
        Err(SyncError::MalformedRecord(1))
    );
    assert!(db.get_changes_since(None).unwrap().is_empty());
}

#[test]
fn memberships_of_a_task_carry_the_stamp() {
    let mut db = Database::new();
    db.apply_changes_at(&[SyncRecord::Task(task("T1", "t", 1, &["G1"]))], "2030-01-01T00:00:00Z")
        .unwrap();
    let links = db.collect_task_tags();
    assert_eq!(links.len(), 1);
    assert_eq!(links[0].task_id, "T1");
    assert_eq!(links[0].tag_id, "G1");
    assert_eq!(links[0].created_at, "2030-01-01T00:00:00Z");
}

#[test]
fn a_batch_that_undoes_itself_is_not_settled() {
    let batch = vec![
        SyncRecord::Task(task("T1", "t", 10, &[])),
        deletion("T1", RecordType::Task, 11),
    ];
    let mut db = Database::new();
    let first = db.apply_changes_at(&batch, &at(12)).unwrap();
    assert!(first.is_empty());
    assert!(!is_settled(&db, &batch));
    assert!(!is_present(&db, &batch[0]));
    assert!(is_present(&db, &batch[1]));
    // The task is gone, so the second application takes it in again and reports nothing.
    let second = db.apply_changes_at(&batch, &at(12)).unwrap();
    assert!(second.is_empty());
    assert!(db.get_task("T1").is_none());
}

#[test]
fn a_membership_that_its_task_replaces_is_not_settled() {
    let link = SyncRecord::TaskTag(TaskTagLink {
        task_id: "T1".to_string(),
        tag_id: "G9".to_string(),
        created_at: at(1),
    });
    let batch = vec![SyncRecord::Task(task("T1", "t", 10, &["G1"])), link];
    let mut db = Database::new();
    db.apply_changes_at(&batch, &at(12)).unwrap();
    assert_eq!(db.task_tag_ids("T1"), vec!["G1".to_string()]);
    assert!(!is_settled(&db, &batch));
    // The second application brings the membership back and the task, which now loses,
    // leaves it.
    let second = db.apply_changes_at(&batch, &at(12)).unwrap();
    assert_eq!(second, vec!["T1".to_string()]);
    assert_eq!(db.task_tag_ids("T1"), vec!["G1".to_string(), "G9".to_string()]);
}

#[test]
fn presence_of_what_a_record_brings() {
    let mut db = Database::new();
    let records = vec![
        SyncRecord::List(list("L1", "l", false, 1)),
        SyncRecord::Tag(tag("G1", "g", 1)),
        SyncRecord::Task(task("T1", "t", 1, &["G1"])),
    ];
    for r in &records {
        assert!(!is_present(&db, r));
    }
    assert!(is_settled(&db, &[]));
    db.apply_changes(&records).unwrap();
    for r in &records {
        assert!(is_present(&db, r));
    }
    assert!(db.has_list("L1") && db.has_tag("G1") && db.has_task("T1"));
    assert!(!db.has_list("T1") && !db.has_tag("L1") && !db.has_task("G1"));
}
