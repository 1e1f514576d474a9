use tickit_sync::db::Database;
use tickit_sync::error::SyncError;
use tickit_sync::models::{List, Priority, RecordType, SyncRecord, Tag, Task};

fn second(seconds: u32) -> String {
    format!("2024-05-01T10:00:{:02}Z", seconds)
}

fn a_task(id: &str, updated: u32, tags: &[&str]) -> Task {
    Task {
        id: id.to_string(),
        title: format!("task {}", id),
        description: Some("d".to_string()),
        url: None,
        priority: Priority::High,
        completed: true,
        list_id: "L1".to_string(),
        tag_ids: tags.iter().map(|t| t.to_string()).collect(),
        created_at: second(0),
        updated_at: second(updated),
        completed_at: Some(second(updated)),
        due_date: None,
    }
}

fn a_list(id: &str, updated: u32) -> List {
    List {
        id: id.to_string(),
        name: format!("list {}", id),
        description: None,
        icon: "i".to_string(),
        color: Some("blue".to_string()),
        is_inbox: false,
        created_at: second(0),
        updated_at: second(updated),
        sort_order: 3,
    }
}

fn a_tag(id: &str, created: u32) -> Tag {
    Tag {
        id: id.to_string(),
        name: format!("tag {}", id),
        color: "green".to_string(),
        created_at: second(created),
        updated_at: None,
    }
}

fn filled() -> Database {
    let mut db = Database::new();
    db.apply_changes(&[
        SyncRecord::Task(a_task("T1", 10, &["G1", "G2"])),
        SyncRecord::Task(a_task("T2", 20, &[])),
        SyncRecord::List(a_list("L1", 10)),
        SyncRecord::List(a_list("L2", 30)),
        SyncRecord::Tag(a_tag("G1", 5)),
        SyncRecord::Tag(a_tag("G2", 25)),
        SyncRecord::Deleted {
            id: "T7".to_string(),
            record_type: RecordType::Task,
            deleted_at: second(15),
        },
        SyncRecord::Deleted {
            id: "L7".to_string(),
            record_type: RecordType::List,
            deleted_at: second(40),
        },
    ])
    .unwrap();
    db
}

fn shape(changes: &[SyncRecord]) -> Vec<String> {
    changes
        .iter()
        .map(|c| match c {
            SyncRecord::List(l) => format!("list {}", l.id),
            SyncRecord::Tag(g) => format!("tag {}", g.id),
            SyncRecord::Task(t) => format!("task {} {:?}", t.id, t.tag_ids),
            SyncRecord::TaskTag(k) => format!("link {} {}", k.task_id, k.tag_id),
            SyncRecord::Deleted { id, record_type, .. } => format!("deleted {} {:?}", id, record_type),
        })
        .collect()
}

#[test]
fn full_resync_gives_the_whole_store_by_kind() {
    let db = filled();
    let changes = db.get_changes_since(None).unwrap();
    assert_eq!(
        shape(&changes),
        vec![
            "list L1",
            "list L2",
            "tag G1",
            "tag G2",
            "task T1 [\"G1\", \"G2\"]",
            "task T2 []",
            "deleted T7 Task",
            "deleted L7 List",
        ]
    );
}

#[test]
fn changes_after_a_watermark() {
    let db = filled();
    let changes = db.get_changes_since(Some(&second(12))).unwrap();
    assert_eq!(
        shape(&changes),
        vec!["list L2", "tag G2", "task T2 []", "deleted T7 Task", "deleted L7 List"]
    );
}

#[test]
fn a_row_at_the_watermark_is_not_a_change() {
    let db = filled();
    let changes = db.get_changes_since(Some(&second(30))).unwrap();
    assert_eq!(shape(&changes), vec!["deleted L7 List"]);
    let changes = db.get_changes_since(Some(&second(40))).unwrap();
    assert!(changes.is_empty());
}

#[test]
fn watermark_in_another_offset() {
    let db = filled();
    // 12:00:29 at +02:00 is 10:00:29 UTC.
    let changes = db.get_changes_since(Some("2024-05-01T12:00:29+02:00")).unwrap();
    assert_eq!(shape(&changes), vec!["list L2", "deleted L7 List"]);
}

#[test]
fn task_is_told_with_all_its_fields() {
    let db = filled();
    let changes = db.get_changes_since(Some(&second(19))).unwrap();
    let task = changes
        .iter()
        .find_map(|c| match c {
            SyncRecord::Task(t) => Some(t.clone()),
            _ => None,
        })
        .unwrap();
    assert_eq!(task.id, "T2");
    assert_eq!(task.title, "task T2");
    assert_eq!(task.description, Some("d".to_string()));
    assert_eq!(task.url, None);
    assert_eq!(task.priority, Priority::High);
    assert!(task.completed);
    assert_eq!(task.list_id, "L1");
    assert_eq!(task.created_at, second(0));
    assert_eq!(task.updated_at, second(20));
    assert_eq!(task.completed_at, Some(second(20)));
    assert_eq!(task.due_date, None);
}

#[test]
fn tags_are_told_by_their_creation() {
    let mut db = Database::new();
    let mut tag = a_tag("G1", 5);
    tag.updated_at = Some(second(50));
    db.apply_changes(&[SyncRecord::Tag(tag)]).unwrap();
    assert!(db.get_changes_since(Some(&second(10))).unwrap().is_empty());
    assert_eq!(db.get_changes_since(Some(&second(4))).unwrap().len(), 1);
}

#[test]
fn empty_store_has_no_changes() {
    let db = Database::new();
    assert!(db.get_changes_since(None).unwrap().is_empty());
    assert!(db.changes_after(Some((0, 0))).is_empty());
}

#[test]
fn watermark_that_is_no_timestamp() {
    let db = filled();
    assert_eq!(db.get_changes_since(Some("0")).err(), Some(SyncError::MalformedWatermark));
    assert_eq!(db.get_changes_since(Some("")).err(), Some(SyncError::MalformedWatermark));
}

#[test]
fn typed_scans() {
    let db = filled();
    let mark = tickit_sync::timestamp::instant_of(&second(12));
    assert!(mark.is_some());
    assert_eq!(db.collect_lists(mark).len(), 1);
    assert_eq!(db.collect_tags(mark).len(), 1);
    assert_eq!(db.collect_tasks(mark).len(), 1);
    assert_eq!(db.collect_tombstones(mark).len(), 2);
    assert_eq!(db.collect_lists(None).len(), 2);
}
