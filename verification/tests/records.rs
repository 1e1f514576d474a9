use tickit_sync::merge::{find_malformed, record_phase, Phase};
use tickit_sync::models::{
    default_icon, List, Priority, RecordType, SyncRecord, Tag, Task, TaskTagLink,
};
use tickit_sync::text::{copy_all, copy_opt, same_text};

const T: &str = "2024-01-01T00:00:00Z";

fn list() -> List {
    List {
        id: "L".to_string(),
        name: "n".to_string(),
        description: Some("d".to_string()),
        icon: default_icon(),
        color: None,
        is_inbox: true,
        created_at: T.to_string(),
        updated_at: T.to_string(),
        sort_order: -4,
    }
}

fn task() -> Task {
    Task {
        id: "T".to_string(),
        title: "t".to_string(),
        description: None,
        url: None,
        priority: Priority::Urgent,
        completed: false,
        list_id: "L".to_string(),
        tag_ids: vec!["G".to_string()],
        created_at: T.to_string(),
        updated_at: T.to_string(),
        completed_at: None,
        due_date: None,
    }
}

fn tag() -> Tag {
    Tag {
        id: "G".to_string(),
        name: "g".to_string(),
        color: "c".to_string(),
        created_at: T.to_string(),
        updated_at: Some(T.to_string()),
    }
}

fn link() -> TaskTagLink {
    TaskTagLink { task_id: "T".to_string(), tag_id: "G".to_string(), created_at: T.to_string() }
}

#[test]
fn stored_names_of_priorities() {
    assert_eq!(Priority::Low.name(), "low");
    assert_eq!(Priority::Medium.name(), "medium");
    assert_eq!(Priority::High.name(), "high");
    assert_eq!(Priority::Urgent.name(), "urgent");
    for p in [Priority::Low, Priority::Medium, Priority::High, Priority::Urgent] {
        assert_eq!(Priority::from_name(p.name()), p);
    }
    assert_eq!(Priority::from_name("LOW"), Priority::Medium);
    assert_eq!(Priority::from_name(""), Priority::Medium);
    assert_eq!(Priority::default(), Priority::Medium);
}

#[test]
fn stored_names_of_record_kinds() {
    assert_eq!(RecordType::Task.name(), "task");
    assert_eq!(RecordType::List.name(), "list");
    assert_eq!(RecordType::Tag.name(), "tag");
    assert_eq!(RecordType::TaskTag.name(), "task_tag");
    for k in [RecordType::Task, RecordType::List, RecordType::Tag, RecordType::TaskTag] {
        assert_eq!(RecordType::from_name(k.name()), k);
    }
    assert_eq!(RecordType::from_name("tasktag"), RecordType::Task);
}

#[test]
fn the_default_icon() {
    assert_eq!(default_icon(), "📁");
}

#[test]
fn copies_hold_the_same() {
    let l = list().clone();
    assert_eq!(
        (l.id.as_str(), l.name.as_str(), l.description.as_deref(), l.icon.as_str(), l.is_inbox, l.sort_order),
        ("L", "n", Some("d"), "📁", true, -4)
    );
    let t = task().clone();
    assert_eq!(t.tag_ids, vec!["G".to_string()]);
    assert_eq!(t.priority, Priority::Urgent);
    let g = tag().clone();
    assert_eq!(g.updated_at, Some(T.to_string()));
    let k = link().clone();
    assert_eq!((k.task_id.as_str(), k.tag_id.as_str()), ("T", "G"));
    match (SyncRecord::Deleted {
        id: "X".to_string(),
        record_type: RecordType::Tag,
        deleted_at: T.to_string(),
    })
    .clone()
    {
        SyncRecord::Deleted { id, record_type, deleted_at } => {
            assert_eq!((id.as_str(), record_type, deleted_at.as_str()), ("X", RecordType::Tag, T));
        }
        other => panic!("unexpected {:?}", other),
    }
    assert_eq!(copy_opt(&Some("a".to_string())), Some("a".to_string()));
    assert_eq!(copy_opt(&None), None);
    assert_eq!(copy_all(&vec!["a".to_string(), "b".to_string()]), vec!["a".to_string(), "b".to_string()]);
}

#[test]
fn equal_texts() {
    assert!(same_text("", ""));
    assert!(same_text("abc", "abc"));
    assert!(same_text("é✓", "é✓"));
    assert!(!same_text("abc", "abd"));
    assert!(!same_text("abc", "ab"));
    assert!(!same_text("", "a"));
}

#[test]
fn well_formed_records() {
    assert!(list().is_well_formed());
    assert!(task().is_well_formed());
    assert!(tag().is_well_formed());
    assert!(link().is_well_formed());
    let mut l = list();
    l.updated_at = "x".to_string();
    assert!(!l.is_well_formed());
    let mut t = task();
    t.completed_at = Some("x".to_string());
    assert!(!t.is_well_formed());
    let mut g = tag();
    g.created_at = "x".to_string();
    assert!(!g.is_well_formed());
    let mut k = link();
    k.created_at = "x".to_string();
    assert!(!k.is_well_formed());
    assert!(!SyncRecord::TaskTag(k).is_well_formed());
    assert!(SyncRecord::List(list()).is_well_formed());
}

#[test]
fn first_malformed_record() {
    let mut bad = tag();
    bad.created_at = "x".to_string();
    let mut worse = list();
    worse.created_at = "y".to_string();
    assert_eq!(find_malformed(&[]), None);
    assert_eq!(find_malformed(&[SyncRecord::List(list()), SyncRecord::Task(task())]), None);
    assert_eq!(
        find_malformed(&[
            SyncRecord::List(list()),
            SyncRecord::Tag(bad),
            SyncRecord::List(worse)
        ]),
        Some(1)
    );
}

#[test]
fn turns_of_the_kinds() {
    assert_eq!(record_phase(&SyncRecord::List(list())), Phase::Lists);
    assert_eq!(record_phase(&SyncRecord::Tag(tag())), Phase::Tags);
    assert_eq!(record_phase(&SyncRecord::TaskTag(link())), Phase::TaskTags);
    assert_eq!(record_phase(&SyncRecord::Task(task())), Phase::Tasks);
    assert_eq!(
        record_phase(&SyncRecord::Deleted {
            id: "X".to_string(),
            record_type: RecordType::Task,
            deleted_at: T.to_string()
        }),
        Phase::Deletions
    );
}
