use tickit_sync::db::{Database, Tombstone};
use tickit_sync::models::{List, Priority, RecordType, Tag, Task, TaskTagLink};

const T0: &str = "2024-01-01T00:00:00Z";
const T1: &str = "2024-01-02T00:00:00Z";

fn list(id: &str, name: &str, inbox: bool) -> List {
    List {
        id: id.to_string(),
        name: name.to_string(),
        description: None,
        icon: tickit_sync::models::default_icon(),
        color: None,
        is_inbox: inbox,
        created_at: T0.to_string(),
        updated_at: T0.to_string(),
        sort_order: 0,
    }
}

fn task(id: &str, tags: &[&str]) -> Task {
    Task {
        id: id.to_string(),
        title: "t".to_string(),
        description: None,
        url: Some("https://example.org".to_string()),
        priority: Priority::default(),
        completed: false,
        list_id: "L1".to_string(),
        tag_ids: tags.iter().map(|t| t.to_string()).collect(),
        created_at: T0.to_string(),
        updated_at: T0.to_string(),
        completed_at: None,
        due_date: Some(T1.to_string()),
    }
}

fn link(task_id: &str, tag_id: &str) -> TaskTagLink {
    TaskTagLink { task_id: task_id.to_string(), tag_id: tag_id.to_string(), created_at: T0.to_string() }
}

#[test]
fn put_replaces_by_id_and_keeps_the_place() {
    let mut db = Database::new();
    db.put_list(list("L1", "a", false));
    db.put_list(list("L2", "b", false));
    db.put_list(list("L1", "c", true));
    let all = db.collect_lists(None);
    assert_eq!(all.len(), 2);
    assert_eq!((all[0].id.as_str(), all[0].name.as_str(), all[0].is_inbox), ("L1", "c", true));
    assert_eq!((all[1].id.as_str(), all[1].name.as_str()), ("L2", "b"));
    assert_eq!(db.get_list("L2").unwrap().name, "b");
    assert!(db.get_list("L3").is_none());
}

#[test]
fn delete_list_spares_the_inbox() {
    let mut db = Database::new();
    db.put_list(list("L1", "inbox", true));
    db.put_list(list("L2", "work", false));
    db.delete_list("L1");
    db.delete_list("L2");
    db.delete_list("L3");
    let all = db.collect_lists(None);
    assert_eq!(all.len(), 1);
    assert_eq!(all[0].id, "L1");
}

#[test]
fn tags_are_put_and_deleted() {
    let mut db = Database::new();
    let tag = |id: &str, name: &str| Tag {
        id: id.to_string(),
        name: name.to_string(),
        color: "c".to_string(),
        created_at: T0.to_string(),
        updated_at: None,
    };
    db.put_tag(tag("G1", "a"));
    db.put_tag(tag("G2", "b"));
    db.put_tag(tag("G1", "z"));
    assert_eq!(db.get_tag("G1").unwrap().name, "z");
    db.delete_tag("G1");
    assert!(db.get_tag("G1").is_none());
    assert_eq!(db.collect_tags(None).len(), 1);
}

#[test]
fn the_tasks_table_holds_no_tag_ids() {
    let mut db = Database::new();
    db.put_task(task("T1", &["G1"]));
    assert!(db.get_task_row("T1").unwrap().tag_ids.is_empty());
    assert!(db.get_task("T1").unwrap().tag_ids.is_empty());
    db.insert_task_tag(link("T1", "G2"));
    db.insert_task_tag(link("T1", "G3"));
    db.insert_task_tag(link("T2", "G9"));
    db.insert_task_tag(link("T1", "G2"));
    assert!(db.get_task_row("T1").unwrap().tag_ids.is_empty());
    assert_eq!(db.get_task("T1").unwrap().tag_ids, vec!["G2".to_string(), "G3".to_string()]);
    assert_eq!(db.get_task("T1").unwrap().url, Some("https://example.org".to_string()));
    assert_eq!(db.collect_task_tags().len(), 3);
}

#[test]
fn delete_task_tags_takes_the_memberships_of_one_task() {
    let mut db = Database::new();
    db.insert_task_tag(link("T1", "G1"));
    db.insert_task_tag(link("T2", "G1"));
    db.insert_task_tag(link("T1", "G2"));
    db.insert_task_tag(link("T3", "G2"));
    db.insert_task_tag(link("T1", "G3"));
    db.delete_task_tags("T1");
    let left: Vec<(String, String)> =
        db.collect_task_tags().into_iter().map(|l| (l.task_id, l.tag_id)).collect();
    assert_eq!(
        left,
        vec![("T2".to_string(), "G1".to_string()), ("T3".to_string(), "G2".to_string())]
    );
    db.delete_task_tags("T1");
    assert_eq!(db.collect_task_tags().len(), 2);
}

#[test]
fn delete_task_keeps_the_memberships() {
    let mut db = Database::new();
    db.put_task(task("T1", &[]));
    db.insert_task_tag(link("T1", "G1"));
    db.delete_task("T1");
    assert!(db.get_task("T1").is_none());
    assert_eq!(db.task_tag_ids("T1"), vec!["G1".to_string()]);
}

#[test]
fn tombstones_are_keyed_by_id_and_kind() {
    let mut db = Database::new();
    let tombstone = |id: &str, kind: RecordType, at: &str| Tombstone {
        id: id.to_string(),
        record_type: kind,
        deleted_at: at.to_string(),
    };
    assert!(tombstone("X", RecordType::Task, T0).is_well_formed());
    assert!(!tombstone("X", RecordType::Task, "then").is_well_formed());
    db.put_tombstone(tombstone("X", RecordType::Task, T0));
    db.put_tombstone(tombstone("X", RecordType::Tag, T0));
    db.put_tombstone(tombstone("X", RecordType::Task, T1));
    assert_eq!(db.collect_tombstones(None).len(), 2);
    assert_eq!(db.get_tombstone("X", RecordType::Task).unwrap().deleted_at, T1);
    assert_eq!(db.get_tombstone("X", RecordType::Tag).unwrap().deleted_at, T0);
    assert!(db.get_tombstone("X", RecordType::TaskTag).is_none());
}

#[test]
fn one_watermark_per_device() {
    let mut db = Database::new();
    assert!(db.last_sync_of("D1").is_none());
    db.update_device_sync("D1", T0);
    db.update_device_sync("D2", T0);
    db.update_device_sync("D1", T1);
    assert_eq!(db.last_sync_of("D1"), Some(T1.to_string()));
    assert_eq!(db.last_sync_of("D2"), Some(T0.to_string()));
    let all = db.collect_device_sync();
    assert_eq!(all.len(), 2);
    assert_eq!(all[0].device_id, "D1");
    assert_eq!(all[0].last_sync, T1);
}
