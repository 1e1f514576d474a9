//! The records that devices and the server exchange, and their mathematical views.
//!
//! Identifiers and timestamps travel as strings. An identifier is opaque. A timestamp is an
//! RFC 3339 text; the engine orders records by the instant that it denotes.

use vstd::prelude::*;
use crate::table::Keyed;
use crate::text::{all_chars, copy_all, copy_opt, opt_chars, same_text};
use crate::timestamp::{denotes_instant, is_opt_timestamp, is_timestamp, opt_denotes_instant};

verus! {

/// Priority level of a task.
#[derive(Debug, Clone, Copy, PartialEq, Eq, Structural)]
pub enum Priority {
    Low,
    Medium,
    High,
    Urgent,
}

impl Default for Priority {
    fn default() -> (r: Self)
        ensures
            r == Priority::Medium,
    {
        Priority::Medium
    }
}

/// The name under which a priority is stored.
pub open spec fn priority_name(priority: Priority) -> Seq<char> {
    match priority {
        Priority::Low => "low"@,
        Priority::Medium => "medium"@,
        Priority::High => "high"@,
        Priority::Urgent => "urgent"@,
    }
}

/// The priority that a stored name stands for: `Medium` for any name that is none of
/// `low`, `high` and `urgent`.
pub open spec fn priority_named(name: Seq<char>) -> Priority {
    if name == "low"@ {
        Priority::Low
    } else if name == "high"@ {
        Priority::High
    } else if name == "urgent"@ {
        Priority::Urgent
    } else {
        Priority::Medium
    }
}

impl Priority {
    /// The name under which the priority is stored.
    pub fn name(&self) -> (r: &'static str)
        ensures
            r@ == priority_name(*self),
    {
        match self {
            Priority::Low => "low",
            Priority::Medium => "medium",
            Priority::High => "high",
            Priority::Urgent => "urgent",
        }
    }

    /// The priority that a stored name stands for.
    pub fn from_name(name: &str) -> (r: Self)
        ensures
            r == priority_named(name@),
    {
        if same_text(name, "low") {
            Priority::Low
        } else if same_text(name, "high") {
            Priority::High
        } else if same_text(name, "urgent") {
            Priority::Urgent
        } else {
            Priority::Medium
        }
    }
}

/// Reading back the name of a priority gives the priority.
pub proof fn lemma_priority_name_reads_back(priority: Priority)
    ensures
        priority_named(priority_name(priority)) == priority,
{
    reveal_strlit("low");
    reveal_strlit("medium");
    reveal_strlit("high");
    reveal_strlit("urgent");
    assert("medium"@.len() != "low"@.len());
    assert("high"@.len() != "low"@.len());
    assert("urgent"@.len() != "low"@.len());
    assert("medium"@.len() != "high"@.len());
    assert("urgent"@.len() != "high"@.len());
    assert("medium"@[0] != "urgent"@[0]);
}

/// A task.
#[derive(Debug)]
pub struct Task {
    pub id: String,
    pub title: String,
    pub description: Option<String>,
    pub url: Option<String>,
    pub priority: Priority,
    pub completed: bool,
    pub list_id: String,
    pub tag_ids: Vec<String>,
    pub created_at: String,
    pub updated_at: String,
    pub completed_at: Option<String>,
    pub due_date: Option<String>,
}

/// What a [`Task`] holds.
pub struct TaskView {
    pub id: Seq<char>,
    pub title: Seq<char>,
    pub description: Option<Seq<char>>,
    pub url: Option<Seq<char>>,
    pub priority: Priority,
    pub completed: bool,
    pub list_id: Seq<char>,
    pub tag_ids: Seq<Seq<char>>,
    pub created_at: Seq<char>,
    pub updated_at: Seq<char>,
    pub completed_at: Option<Seq<char>>,
    pub due_date: Option<Seq<char>>,
}

impl View for Task {
    type V = TaskView;

    open spec fn view(&self) -> TaskView {
        TaskView {
            id: self.id@,
            title: self.title@,
            description: opt_chars(self.description),
            url: opt_chars(self.url),
            priority: self.priority,
            completed: self.completed,
            list_id: self.list_id@,
            tag_ids: all_chars(self.tag_ids@),
            created_at: self.created_at@,
            updated_at: self.updated_at@,
            completed_at: opt_chars(self.completed_at),
            due_date: opt_chars(self.due_date),
        }
    }
}

impl TaskView {
    /// Each timestamp of the task denotes an instant.
    pub open spec fn valid(self) -> bool {
        &&& is_timestamp(self.created_at)
        &&& is_timestamp(self.updated_at)
        &&& is_opt_timestamp(self.completed_at)
        &&& is_opt_timestamp(self.due_date)
    }

    /// The task as the tasks table holds it: without tag ids, which the memberships carry.
    pub open spec fn row(self) -> TaskView {
        TaskView { tag_ids: Seq::empty(), ..self }
    }

    /// The task with the given tag ids.
    pub open spec fn with_tags(self, tag_ids: Seq<Seq<char>>) -> TaskView {
        TaskView { tag_ids, ..self }
    }
}

impl Keyed for TaskView {
    type Key = Seq<char>;

    open spec fn key(&self) -> Seq<char> {
        self.id
    }
}

impl Task {
    /// Whether each timestamp of the task denotes an instant.
    pub fn is_well_formed(&self) -> (r: bool)
        ensures
            r == self@.valid(),
    {
        denotes_instant(self.created_at.as_str()) && denotes_instant(self.updated_at.as_str())
            && opt_denotes_instant(&self.completed_at) && opt_denotes_instant(&self.due_date)
    }
}

impl Clone for Task {
    fn clone(&self) -> (r: Self)
        ensures
            r@ == self@,
    {
        Task {
            id: self.id.clone(),
            title: self.title.clone(),
            description: copy_opt(&self.description),
            url: copy_opt(&self.url),
            priority: self.priority,
            completed: self.completed,
            list_id: self.list_id.clone(),
            tag_ids: copy_all(&self.tag_ids),
            created_at: self.created_at.clone(),
            updated_at: self.updated_at.clone(),
            completed_at: copy_opt(&self.completed_at),
            due_date: copy_opt(&self.due_date),
        }
    }
}

/// A list that tasks belong to.
#[derive(Debug)]
pub struct List {
    pub id: String,
    pub name: String,
    pub description: Option<String>,
    pub icon: String,
    pub color: Option<String>,
    pub is_inbox: bool,
    pub created_at: String,
    pub updated_at: String,
    pub sort_order: i32,
}

/// What a [`List`] holds.
pub struct ListView {
    pub id: Seq<char>,
    pub name: Seq<char>,
    pub description: Option<Seq<char>>,
    pub icon: Seq<char>,
    pub color: Option<Seq<char>>,
    pub is_inbox: bool,
    pub created_at: Seq<char>,
    pub updated_at: Seq<char>,
    pub sort_order: i32,
}

impl View for List {
    type V = ListView;

    open spec fn view(&self) -> ListView {
        ListView {
            id: self.id@,
            name: self.name@,
            description: opt_chars(self.description),
            icon: self.icon@,
            color: opt_chars(self.color),
            is_inbox: self.is_inbox,
            created_at: self.created_at@,
            updated_at: self.updated_at@,
            sort_order: self.sort_order,
        }
    }
}

impl ListView {
    /// Each timestamp of the list denotes an instant.
    pub open spec fn valid(self) -> bool {
        &&& is_timestamp(self.created_at)
        &&& is_timestamp(self.updated_at)
    }
}

impl Keyed for ListView {
    type Key = Seq<char>;

    open spec fn key(&self) -> Seq<char> {
        self.id
    }
}

impl List {
    /// Whether each timestamp of the list denotes an instant.
    pub fn is_well_formed(&self) -> (r: bool)
        ensures
            r == self@.valid(),
    {
        denotes_instant(self.created_at.as_str()) && denotes_instant(self.updated_at.as_str())
    }
}

impl Clone for List {
    fn clone(&self) -> (r: Self)
        ensures
            r@ == self@,
    {
        List {
            id: self.id.clone(),
            name: self.name.clone(),
            description: copy_opt(&self.description),
            icon: self.icon.clone(),
            color: copy_opt(&self.color),
            is_inbox: self.is_inbox,
            created_at: self.created_at.clone(),
            updated_at: self.updated_at.clone(),
            sort_order: self.sort_order,
        }
    }
}

/// The icon of a list that names none.
pub fn default_icon() -> (r: String)
    ensures
        r@ == "📁"@,
{
    "📁".to_owned()
}

/// A tag that tasks can carry.
#[derive(Debug)]
pub struct Tag {
    pub id: String,
    pub name: String,
    pub color: String,
    pub created_at: String,
    pub updated_at: Option<String>,
}

/// What a [`Tag`] holds.
pub struct TagView {
    pub id: Seq<char>,
    pub name: Seq<char>,
    pub color: Seq<char>,
    pub created_at: Seq<char>,
    pub updated_at: Option<Seq<char>>,
}

impl View for Tag {
    type V = TagView;

    open spec fn view(&self) -> TagView {
        TagView {
            id: self.id@,
            name: self.name@,
            color: self.color@,
            created_at: self.created_at@,
            updated_at: opt_chars(self.updated_at),
        }
    }
}

impl TagView {
    /// Each timestamp of the tag denotes an instant.
    pub open spec fn valid(self) -> bool {
        &&& is_timestamp(self.created_at)
        &&& is_opt_timestamp(self.updated_at)
    }
}

impl Keyed for TagView {
    type Key = Seq<char>;

    open spec fn key(&self) -> Seq<char> {
        self.id
    }
}

impl Tag {
    /// Whether each timestamp of the tag denotes an instant.
    pub fn is_well_formed(&self) -> (r: bool)
        ensures
            r == self@.valid(),
    {
        denotes_instant(self.created_at.as_str()) && opt_denotes_instant(&self.updated_at)
    }
}

impl Clone for Tag {
    fn clone(&self) -> (r: Self)
        ensures
            r@ == self@,
    {
        Tag {
            id: self.id.clone(),
            name: self.name.clone(),
            color: self.color.clone(),
            created_at: self.created_at.clone(),
            updated_at: copy_opt(&self.updated_at),
        }
    }
}

/// The fact that a task carries a tag.
#[derive(Debug)]
pub struct TaskTagLink {
    pub task_id: String,
    pub tag_id: String,
    pub created_at: String,
}

/// What a [`TaskTagLink`] holds.
pub struct TaskTagLinkView {
    pub task_id: Seq<char>,
    pub tag_id: Seq<char>,
    pub created_at: Seq<char>,
}

impl View for TaskTagLink {
    type V = TaskTagLinkView;

    open spec fn view(&self) -> TaskTagLinkView {
        TaskTagLinkView {
            task_id: self.task_id@,
            tag_id: self.tag_id@,
            created_at: self.created_at@,
        }
    }
}

impl TaskTagLinkView {
    /// The timestamp of the membership denotes an instant.
    pub open spec fn valid(self) -> bool {
        is_timestamp(self.created_at)
    }
}

impl Keyed for TaskTagLinkView {
    type Key = (Seq<char>, Seq<char>);

    open spec fn key(&self) -> (Seq<char>, Seq<char>) {
        (self.task_id, self.tag_id)
    }
}

impl TaskTagLink {
    /// Whether the timestamp of the membership denotes an instant.
    pub fn is_well_formed(&self) -> (r: bool)
        ensures
            r == self@.valid(),
    {
        denotes_instant(self.created_at.as_str())
    }
}

impl Clone for TaskTagLink {
    fn clone(&self) -> (r: Self)
        ensures
            r@ == self@,
    {
        TaskTagLink {
            task_id: self.task_id.clone(),
            tag_id: self.tag_id.clone(),
            created_at: self.created_at.clone(),
        }
    }
}

/// The kind of entity that a deletion removed.
#[derive(Debug, Clone, Copy, PartialEq, Eq, Structural)]
pub enum RecordType {
    Task,
    List,
    Tag,
    TaskTag,
}

/// The name under which a kind of record is stored.
pub open spec fn record_type_name(record_type: RecordType) -> Seq<char> {
    match record_type {
        RecordType::Task => "task"@,
        RecordType::List => "list"@,
        RecordType::Tag => "tag"@,
        RecordType::TaskTag => "task_tag"@,
    }
}

/// The kind of record that a stored name stands for: `Task` for any name that is none of
/// `list`, `tag` and `task_tag`.
pub open spec fn record_type_named(name: Seq<char>) -> RecordType {
    if name == "list"@ {
        RecordType::List
    } else if name == "tag"@ {
        RecordType::Tag
    } else if name == "task_tag"@ {
        RecordType::TaskTag
    } else {
        RecordType::Task
    }
}

impl RecordType {
    /// The name under which the kind of record is stored.
    pub fn name(&self) -> (r: &'static str)
        ensures
            r@ == record_type_name(*self),
    {
        match self {
            RecordType::Task => "task",
            RecordType::List => "list",
            RecordType::Tag => "tag",
            RecordType::TaskTag => "task_tag",
        }
    }

    /// The kind of record that a stored name stands for.
    pub fn from_name(name: &str) -> (r: Self)
        ensures
            r == record_type_named(name@),
    {
        if same_text(name, "list") {
            RecordType::List
        } else if same_text(name, "tag") {
            RecordType::Tag
        } else if same_text(name, "task_tag") {
            RecordType::TaskTag
        } else {
            RecordType::Task
        }
    }
}

/// Reading back the name of a kind of record gives the kind.
pub proof fn lemma_record_type_name_reads_back(record_type: RecordType)
    ensures
        record_type_named(record_type_name(record_type)) == record_type,
{
    reveal_strlit("task");
    reveal_strlit("list");
    reveal_strlit("tag");
    reveal_strlit("task_tag");
    assert("task"@[0] != "list"@[0]);
    assert("tag"@.len() != "list"@.len());
    assert("task_tag"@.len() != "list"@.len());
    assert("task"@.len() != "tag"@.len());
    assert("task_tag"@.len() != "tag"@.len());
    assert("task"@.len() != "task_tag"@.len());
}

/// One change: an entity as it now is, or the deletion of one.
#[derive(Debug)]
pub enum SyncRecord {
    Task(Task),
    List(List),
    Tag(Tag),
    TaskTag(TaskTagLink),
    Deleted { id: String, record_type: RecordType, deleted_at: String },
}

/// What a [`SyncRecord`] holds.
pub enum SyncRecordView {
    Task(TaskView),
    List(ListView),
    Tag(TagView),
    TaskTag(TaskTagLinkView),
    Deleted { id: Seq<char>, record_type: RecordType, deleted_at: Seq<char> },
}

impl View for SyncRecord {
    type V = SyncRecordView;

    open spec fn view(&self) -> SyncRecordView {
        match self {
            SyncRecord::Task(task) => SyncRecordView::Task(task@),
            SyncRecord::List(list) => SyncRecordView::List(list@),
            SyncRecord::Tag(tag) => SyncRecordView::Tag(tag@),
            SyncRecord::TaskTag(link) => SyncRecordView::TaskTag(link@),
            SyncRecord::Deleted { id, record_type, deleted_at } => SyncRecordView::Deleted {
                id: id@,
                record_type: *record_type,
                deleted_at: deleted_at@,
            },
        }
    }
}

impl SyncRecordView {
    /// Each timestamp of the record denotes an instant.
    pub open spec fn valid(self) -> bool {
        match self {
            SyncRecordView::Task(task) => task.valid(),
            SyncRecordView::List(list) => list.valid(),
            SyncRecordView::Tag(tag) => tag.valid(),
            SyncRecordView::TaskTag(link) => link.valid(),
            SyncRecordView::Deleted { id, record_type, deleted_at } => is_timestamp(deleted_at),
        }
    }
}

impl SyncRecord {
    /// Whether each timestamp of the record denotes an instant.
    pub fn is_well_formed(&self) -> (r: bool)
        ensures
            r == self@.valid(),
    {
        match self {
            SyncRecord::Task(task) => task.is_well_formed(),
            SyncRecord::List(list) => list.is_well_formed(),
            SyncRecord::Tag(tag) => tag.is_well_formed(),
            SyncRecord::TaskTag(link) => link.is_well_formed(),
            SyncRecord::Deleted { id, record_type, deleted_at } => denotes_instant(
                deleted_at.as_str(),
            ),
        }
    }
}

impl Clone for SyncRecord {
    fn clone(&self) -> (r: Self)
        ensures
            r@ == self@,
    {
        match self {
            SyncRecord::Task(task) => SyncRecord::Task(task.clone()),
            SyncRecord::List(list) => SyncRecord::List(list.clone()),
            SyncRecord::Tag(tag) => SyncRecord::Tag(tag.clone()),
            SyncRecord::TaskTag(link) => SyncRecord::TaskTag(link.clone()),
            SyncRecord::Deleted { id, record_type, deleted_at } => SyncRecord::Deleted {
                id: id.clone(),
                record_type: *record_type,
                deleted_at: deleted_at.clone(),
            },
        }
    }
}

/// The views of a sequence of values.
pub open spec fn views<T: View>(items: Seq<T>) -> Seq<T::V> {
    items.map_values(|item: T| item@)
}

/// What a device sends: who it is, up to when it has seen the server's changes, and its own
/// changes since.
#[derive(Debug)]
pub struct SyncRequest {
    pub device_id: String,
    /// `None` asks for everything.
    pub last_sync: Option<String>,
    pub changes: Vec<SyncRecord>,
}

/// What a [`SyncRequest`] holds.
pub struct SyncRequestView {
    pub device_id: Seq<char>,
    pub last_sync: Option<Seq<char>>,
    pub changes: Seq<SyncRecordView>,
}

impl View for SyncRequest {
    type V = SyncRequestView;

    open spec fn view(&self) -> SyncRequestView {
        SyncRequestView {
            device_id: self.device_id@,
            last_sync: opt_chars(self.last_sync),
            changes: views(self.changes@),
        }
    }
}

/// What the server answers: its time, the changes that the device has not seen, and the
/// identifiers of the device's changes that lost against the server's version.
#[derive(Debug)]
pub struct SyncResponse {
    pub server_time: String,
    pub changes: Vec<SyncRecord>,
    pub conflicts: Vec<String>,
}

/// What a [`SyncResponse`] holds.
pub struct SyncResponseView {
    pub server_time: Seq<char>,
    pub changes: Seq<SyncRecordView>,
    pub conflicts: Seq<Seq<char>>,
}

impl View for SyncResponse {
    type V = SyncResponseView;

    open spec fn view(&self) -> SyncResponseView {
        SyncResponseView {
            server_time: self.server_time@,
            changes: views(self.changes@),
            conflicts: all_chars(self.conflicts@),
        }
    }
}

} // verus!
