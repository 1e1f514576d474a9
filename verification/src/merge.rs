//! The merge engine: applies the changes of one device to the store.
//!
//! A batch is applied kind by kind: lists, tags, memberships, tasks, deletions. Lists and
//! tasks are merged last-writer-wins on `updated_at`; a change that is not strictly later than
//! the stored row is rejected and its id reported as a conflict.

use vstd::prelude::*;
use crate::db::{
    link_stays, list_stays, tag_stays, task_stays, Database, DatabaseView, Tombstone,
    TombstoneView,
};
use crate::error::SyncError;
use crate::models::{
    views, List, ListView, RecordType, SyncRecord, SyncRecordView, Tag, TagView, Task,
    TaskTagLink, TaskTagLinkView, TaskView,
};
use crate::table::{lemma_lookup_in, lookup, put, put_new};
use crate::text::{all_chars, copy_opt};
use crate::timestamp::{clock_rfc3339, is_later, is_timestamp, later};

verus! {

/// The stored list after a later change wrote over it: the change, but for the id, the time
/// of creation and the inbox flag, which stay.
pub open spec fn list_overwritten(stored: ListView, change: ListView) -> ListView {
    ListView { id: stored.id, created_at: stored.created_at, is_inbox: stored.is_inbox, ..change }
}

/// The change loses: the store holds the list, and the change is not strictly later.
pub open spec fn list_rejected(s: DatabaseView, change: ListView) -> bool {
    match lookup(s.lists, change.id) {
        Some(stored) => !is_later(change.updated_at, stored.updated_at),
        None => false,
    }
}

/// The store after the change to a list.
pub open spec fn list_merged(s: DatabaseView, change: ListView) -> DatabaseView {
    match lookup(s.lists, change.id) {
        Some(stored) => if is_later(change.updated_at, stored.updated_at) {
            DatabaseView { lists: put(s.lists, list_overwritten(stored, change)), ..s }
        } else {
            s
        },
        None => DatabaseView { lists: put(s.lists, change), ..s },
    }
}

/// The stored row of a task after a later change wrote over it: the change, but for the id
/// and the time of creation, which stay.
pub open spec fn task_overwritten(stored: TaskView, change: TaskView) -> TaskView {
    TaskView { id: stored.id, created_at: stored.created_at, ..change.row() }
}

/// The change loses: the store holds the task, and the change is not strictly later.
pub open spec fn task_rejected(s: DatabaseView, change: TaskView) -> bool {
    match lookup(s.tasks, change.id) {
        Some(stored) => !is_later(change.updated_at, stored.updated_at),
        None => false,
    }
}

/// The membership that makes the task carry the tag from `stamp` on.
pub open spec fn membership(task_id: Seq<char>, tag_id: Seq<char>, stamp: Seq<char>)
    -> TaskTagLinkView {
    TaskTagLinkView { task_id, tag_id, created_at: stamp }
}

/// The memberships after the task was given each of the tags, one after the other, where it
/// did not carry it yet.
pub open spec fn tags_added(
    links: Seq<TaskTagLinkView>,
    task_id: Seq<char>,
    tag_ids: Seq<Seq<char>>,
    stamp: Seq<char>,
) -> Seq<TaskTagLinkView>
    decreases tag_ids.len(),
{
    if tag_ids.len() == 0 {
        links
    } else {
        put_new(
            tags_added(links, task_id, tag_ids.drop_last(), stamp),
            membership(task_id, tag_ids.last(), stamp),
        )
    }
}

/// The memberships after those of the task were replaced by the given tags.
pub open spec fn tags_replaced(
    links: Seq<TaskTagLinkView>,
    task_id: Seq<char>,
    tag_ids: Seq<Seq<char>>,
    stamp: Seq<char>,
) -> Seq<TaskTagLinkView> {
    tags_added(links.filter(link_stays(task_id)), task_id, tag_ids, stamp)
}

/// The store after the change to a task. Unless the change loses, the tags that it names
/// replace the memberships of the task, each stamped `stamp`.
pub open spec fn task_merged(s: DatabaseView, change: TaskView, stamp: Seq<char>) -> DatabaseView {
    match lookup(s.tasks, change.id) {
        Some(stored) => if is_later(change.updated_at, stored.updated_at) {
            DatabaseView {
                tasks: put(s.tasks, task_overwritten(stored, change)),
                task_tags: tags_replaced(s.task_tags, change.id, change.tag_ids, stamp),
                ..s
            }
        } else {
            s
        },
        None => DatabaseView {
            tasks: put(s.tasks, change.row()),
            task_tags: tags_replaced(s.task_tags, change.id, change.tag_ids, stamp),
            ..s
        },
    }
}

/// The store after the change to a tag: the change replaces what was stored, whatever the
/// times.
pub open spec fn tag_merged(s: DatabaseView, change: TagView) -> DatabaseView {
    DatabaseView { tags: put(s.tags, change), ..s }
}

/// The store after a membership came: it is added unless the task carries the tag already.
pub open spec fn link_merged(s: DatabaseView, change: TaskTagLinkView) -> DatabaseView {
    DatabaseView { task_tags: put_new(s.task_tags, change), ..s }
}

/// The store after a deletion: the tombstone is written, and the row leaves. An inbox list
/// stays. For the kind `TaskTag` the id is that of a task, and all its memberships leave.
pub open spec fn deleted(
    s: DatabaseView,
    id: Seq<char>,
    record_type: RecordType,
    deleted_at: Seq<char>,
) -> DatabaseView {
    let tombstones = put(s.tombstones, TombstoneView { id, record_type, deleted_at });
    match record_type {
        RecordType::Task => DatabaseView { tombstones, tasks: s.tasks.filter(task_stays(id)), ..s },
        RecordType::List => DatabaseView { tombstones, lists: s.lists.filter(list_stays(id)), ..s },
        RecordType::Tag => DatabaseView { tombstones, tags: s.tags.filter(tag_stays(id)), ..s },
        RecordType::TaskTag => DatabaseView {
            tombstones,
            task_tags: s.task_tags.filter(link_stays(id)),
            ..s
        },
    }
}

/// The turn in which a kind of record is applied.
#[derive(Debug, Clone, Copy, PartialEq, Eq, Structural)]
pub enum Phase {
    Lists,
    Tags,
    TaskTags,
    Tasks,
    Deletions,
}

/// The turn of a record.
pub open spec fn phase_of(record: SyncRecordView) -> Phase {
    match record {
        SyncRecordView::List(_) => Phase::Lists,
        SyncRecordView::Tag(_) => Phase::Tags,
        SyncRecordView::TaskTag(_) => Phase::TaskTags,
        SyncRecordView::Task(_) => Phase::Tasks,
        SyncRecordView::Deleted { .. } => Phase::Deletions,
    }
}

/// A store, and the ids of the changes that lost so far.
pub struct Outcome {
    pub store: DatabaseView,
    pub conflicts: Seq<Seq<char>>,
}

/// The outcome after one more record.
pub open spec fn applied(o: Outcome, record: SyncRecordView, stamp: Seq<char>) -> Outcome {
    match record {
        SyncRecordView::List(list) => Outcome {
            store: list_merged(o.store, list),
            conflicts: if list_rejected(o.store, list) {
                o.conflicts.push(list.id)
            } else {
                o.conflicts
            },
        },
        SyncRecordView::Tag(tag) => Outcome { store: tag_merged(o.store, tag), ..o },
        SyncRecordView::TaskTag(link) => Outcome { store: link_merged(o.store, link), ..o },
        SyncRecordView::Task(task) => Outcome {
            store: task_merged(o.store, task, stamp),
            conflicts: if task_rejected(o.store, task) {
                o.conflicts.push(task.id)
            } else {
                o.conflicts
            },
        },
        SyncRecordView::Deleted { id, record_type, deleted_at } => Outcome {
            store: deleted(o.store, id, record_type, deleted_at),
            ..o
        },
    }
}

/// The outcome after the records of one turn, in the order of the batch.
pub open spec fn pass(o: Outcome, batch: Seq<SyncRecordView>, phase: Phase, stamp: Seq<char>)
    -> Outcome
    decreases batch.len(),
{
    if batch.len() == 0 {
        o
    } else if phase_of(batch.last()) == phase {
        applied(pass(o, batch.drop_last(), phase, stamp), batch.last(), stamp)
    } else {
        pass(o, batch.drop_last(), phase, stamp)
    }
}

/// The store after a batch, and the ids of the changes that lost: lists first, then tags,
/// memberships, tasks, and deletions last.
pub open spec fn merged(s: DatabaseView, batch: Seq<SyncRecordView>, stamp: Seq<char>) -> Outcome {
    let start = Outcome { store: s, conflicts: Seq::empty() };
    let lists = pass(start, batch, Phase::Lists, stamp);
    let tags = pass(lists, batch, Phase::Tags, stamp);
    let links = pass(tags, batch, Phase::TaskTags, stamp);
    let tasks = pass(links, batch, Phase::Tasks, stamp);
    pass(tasks, batch, Phase::Deletions, stamp)
}

/// Every record of the batch is valid.
pub open spec fn all_valid(batch: Seq<SyncRecordView>) -> bool {
    forall|i: int| 0 <= i < batch.len() ==> (#[trigger] batch[i]).valid()
}

/// The record at `i` is the first of the batch that is not valid.
pub open spec fn first_malformed(batch: Seq<SyncRecordView>, i: int) -> bool {
    &&& 0 <= i < batch.len()
    &&& !batch[i].valid()
    &&& forall|j: int| 0 <= j < i ==> (#[trigger] batch[j]).valid()
}

/// The place of the first record that is not valid, if there is one.
pub fn find_malformed(changes: &[SyncRecord]) -> (r: Option<usize>)
    ensures
        match r {
            Some(i) => first_malformed(views(changes@), i as int),
            None => all_valid(views(changes@)),
        },
{
    let mut i: usize = 0;
    while i < changes.len()
        invariant
            i <= changes@.len(),
            forall|j: int| 0 <= j < i ==> (#[trigger] views(changes@)[j]).valid(),
        decreases changes@.len() - i,
    {
        if !changes[i].is_well_formed() {
            return Some(i);
        }
        i += 1;
    }
    None
}

/// The turn of a record.
pub fn record_phase(record: &SyncRecord) -> (r: Phase)
    ensures
        r == phase_of(record@),
{
    match record {
        SyncRecord::List(_) => Phase::Lists,
        SyncRecord::Tag(_) => Phase::Tags,
        SyncRecord::TaskTag(_) => Phase::TaskTags,
        SyncRecord::Task(_) => Phase::Tasks,
        SyncRecord::Deleted { .. } => Phase::Deletions,
    }
}

impl Database {
    /// Merges a change to a list, last writer wins. Returns the id where the change lost.
    pub fn upsert_list(&mut self, list: &List) -> (conflict: Option<String>)
        requires
            old(self).wf(),
            list@.valid(),
        ensures
            final(self).wf(),
            final(self)@ == list_merged(old(self)@, list@),
            match conflict {
                Some(id) => list_rejected(old(self)@, list@) && id@ == list@.id,
                None => !list_rejected(old(self)@, list@),
            },
    {
        match self.get_list(list.id.as_str()) {
            Some(stored) => {
                proof {
                    lemma_lookup_in(self@.lists, list@.id);
                }
                if later(list.updated_at.as_str(), stored.updated_at.as_str()) {
                    let row = List {
                        id: stored.id,
                        name: list.name.clone(),
                        description: copy_opt(&list.description),
                        icon: list.icon.clone(),
                        color: copy_opt(&list.color),
                        is_inbox: stored.is_inbox,
                        created_at: stored.created_at,
                        updated_at: list.updated_at.clone(),
                        sort_order: list.sort_order,
                    };
                    assert(row@ == list_overwritten(stored@, list@));
                    self.put_list(row);
                    None
                } else {
                    Some(list.id.clone())
                }
            },
            None => {
                self.put_list(list.clone());
                None
            },
        }
    }

    /// Merges a change to a tag: it replaces what was stored.
    pub fn upsert_tag(&mut self, tag: &Tag)
        requires
            old(self).wf(),
            tag@.valid(),
        ensures
            final(self).wf(),
            final(self)@ == tag_merged(old(self)@, tag@),
    {
        self.put_tag(tag.clone());
    }

    /// Merges a membership: it is added unless the task carries the tag already.
    pub fn upsert_task_tag(&mut self, link: &TaskTagLink)
        requires
            old(self).wf(),
        ensures
            final(self).wf(),
            final(self)@ == link_merged(old(self)@, link@),
    {
        self.insert_task_tag(link.clone());
    }

    /// Replaces the memberships of the task by the given tags, each stamped `stamp`.
    fn replace_task_tags(&mut self, task_id: &str, tag_ids: &Vec<String>, stamp: &str)
        requires
            old(self).wf(),
        ensures
            final(self).wf(),
            final(self)@ == (DatabaseView {
                task_tags: tags_replaced(
                    old(self)@.task_tags,
                    task_id@,
                    all_chars(tag_ids@),
                    stamp@,
                ),
                ..old(self)@
            }),
    {
        self.delete_task_tags(task_id);
        let ghost cleared = self@.task_tags;
        let ghost wanted = all_chars(tag_ids@);
        let mut i: usize = 0;
        assert(wanted.take(0) =~= Seq::empty());
        while i < tag_ids.len()
            invariant
                i <= tag_ids@.len(),
                wanted == all_chars(tag_ids@),
                self.wf(),
                self@ == (DatabaseView {
                    task_tags: tags_added(cleared, task_id@, wanted.take(i as int), stamp@),
                    ..old(self)@
                }),
            decreases tag_ids@.len() - i,
        {
            proof {
                assert(wanted.take(i + 1).drop_last() =~= wanted.take(i as int));
                assert(wanted.take(i + 1).last() == tag_ids@[i as int]@);
            }
            self.insert_task_tag(
                TaskTagLink {
                    task_id: task_id.to_owned(),
                    tag_id: tag_ids[i].clone(),
                    created_at: stamp.to_owned(),
                },
            );
            i += 1;
        }
        assert(wanted.take(i as int) =~= wanted);
    }

    /// Merges a change to a task, last writer wins. Unless the change loses, the tags that it
    /// names replace the memberships of the task. Returns the id where the change lost.
    pub fn upsert_task(&mut self, task: &Task, stamp: &str) -> (conflict: Option<String>)
        requires
            old(self).wf(),
            task@.valid(),
        ensures
            final(self).wf(),
            final(self)@ == task_merged(old(self)@, task@, stamp@),
            match conflict {
                Some(id) => task_rejected(old(self)@, task@) && id@ == task@.id,
                None => !task_rejected(old(self)@, task@),
            },
    {
        match self.get_task_row(task.id.as_str()) {
            Some(stored) => {
                proof {
                    lemma_lookup_in(self@.tasks, task@.id);
                }
                if later(task.updated_at.as_str(), stored.updated_at.as_str()) {
                    let row = Task {
                        id: stored.id,
                        title: task.title.clone(),
                        description: copy_opt(&task.description),
                        url: copy_opt(&task.url),
                        priority: task.priority,
                        completed: task.completed,
                        list_id: task.list_id.clone(),
                        tag_ids: Vec::new(),
                        created_at: stored.created_at,
                        updated_at: task.updated_at.clone(),
                        completed_at: copy_opt(&task.completed_at),
                        due_date: copy_opt(&task.due_date),
                    };
                    assert(row@.tag_ids =~= Seq::empty());
                    assert(row@ == task_overwritten(stored@, task@));
                    assert(row@.row() == row@);
                    self.put_task(row);
                } else {
                    return Some(task.id.clone());
                }
            },
            None => {
                self.put_task(task.clone());
            },
        }
        self.replace_task_tags(task.id.as_str(), &task.tag_ids, stamp);
        None
    }

    /// Applies a deletion: writes the tombstone, then removes the row. An inbox list stays.
    /// For the kind `TaskTag` the id is that of a task, and all its memberships leave.
    pub fn apply_delete(&mut self, id: &str, record_type: RecordType, deleted_at: &str)
        requires
            old(self).wf(),
            is_timestamp(deleted_at@),
        ensures
            final(self).wf(),
            final(self)@ == deleted(old(self)@, id@, record_type, deleted_at@),
    {
        self.put_tombstone(
            Tombstone { id: id.to_owned(), record_type, deleted_at: deleted_at.to_owned() },
        );
        match record_type {
            RecordType::Task => self.delete_task(id),
            RecordType::List => self.delete_list(id),
            RecordType::Tag => self.delete_tag(id),
            RecordType::TaskTag => self.delete_task_tags(id),
        }
    }
    /// Applies one record. Where it loses, its id joins the conflicts.
    pub fn apply_record(&mut self, record: &SyncRecord, stamp: &str, conflicts: &mut Vec<String>)
        requires
            old(self).wf(),
            record@.valid(),
        ensures
            final(self).wf(),
            (Outcome { store: final(self)@, conflicts: all_chars(final(conflicts)@) }) == applied(
                Outcome { store: old(self)@, conflicts: all_chars(old(conflicts)@) },
                record@,
                stamp@,
            ),
    {
        let ghost lost = all_chars(conflicts@);
        match record {
            SyncRecord::List(list) => {
                if let Some(id) = self.upsert_list(list) {
                    conflicts.push(id);
                    assert(all_chars(conflicts@) =~= lost.push(list@.id));
                }
            },
            SyncRecord::Tag(tag) => {
                self.upsert_tag(tag);
            },
            SyncRecord::TaskTag(link) => {
                self.upsert_task_tag(link);
            },
            SyncRecord::Task(task) => {
                if let Some(id) = self.upsert_task(task, stamp) {
                    conflicts.push(id);
                    assert(all_chars(conflicts@) =~= lost.push(task@.id));
                }
            },
            SyncRecord::Deleted { id, record_type, deleted_at } => {
                self.apply_delete(id.as_str(), *record_type, deleted_at.as_str());
            },
        }
    }

    /// Applies the records of one turn, in the order of the batch.
    pub fn apply_phase(
        &mut self,
        changes: &[SyncRecord],
        phase: Phase,
        stamp: &str,
        conflicts: &mut Vec<String>,
    )
        requires
            old(self).wf(),
            all_valid(views(changes@)),
        ensures
            final(self).wf(),
            (Outcome { store: final(self)@, conflicts: all_chars(final(conflicts)@) }) == pass(
                Outcome { store: old(self)@, conflicts: all_chars(old(conflicts)@) },
                views(changes@),
                phase,
                stamp@,
            ),
    {
        let ghost batch = views(changes@);
        let ghost start = Outcome { store: self@, conflicts: all_chars(conflicts@) };
        let mut i: usize = 0;
        assert(batch.take(0) =~= Seq::empty());
        while i < changes.len()
            invariant
                i <= changes@.len(),
                batch == views(changes@),
                all_valid(batch),
                self.wf(),
                (Outcome { store: self@, conflicts: all_chars(conflicts@) }) == pass(
                    start,
                    batch.take(i as int),
                    phase,
                    stamp@,
                ),
            decreases changes@.len() - i,
        {
            proof {
                assert(batch.take(i + 1).drop_last() =~= batch.take(i as int));
                assert(batch.take(i + 1).last() == batch[i as int]);
                assert(batch[i as int].valid());
            }
            if record_phase(&changes[i]) == phase {
                self.apply_record(&changes[i], stamp, conflicts);
            }
            i += 1;
        }
        assert(batch.take(i as int) =~= batch);
    }

    /// Applies a batch of changes, with `stamp` as the time of the memberships that tasks
    /// bring. A batch with a malformed record is refused whole.
    pub fn apply_changes_at(&mut self, changes: &[SyncRecord], stamp: &str) -> (r: Result<
        Vec<String>,
        SyncError,
    >)
        requires
            old(self).wf(),
        ensures
            final(self).wf(),
            match r {
                Ok(conflicts) => {
                    &&& all_valid(views(changes@))
                    &&& final(self)@ == merged(old(self)@, views(changes@), stamp@).store
                    &&& all_chars(conflicts@) == merged(
                        old(self)@,
                        views(changes@),
                        stamp@,
                    ).conflicts
                },
                Err(SyncError::MalformedRecord(i)) => {
                    &&& first_malformed(views(changes@), i as int)
                    &&& final(self)@ == old(self)@
                },
                Err(_) => false,
            },
    {
        if let Some(i) = find_malformed(changes) {
            return Err(SyncError::MalformedRecord(i));
        }
        let mut conflicts: Vec<String> = Vec::new();
        assert(all_chars(conflicts@) =~= Seq::empty());
        self.apply_phase(changes, Phase::Lists, stamp, &mut conflicts);
        self.apply_phase(changes, Phase::Tags, stamp, &mut conflicts);
        self.apply_phase(changes, Phase::TaskTags, stamp, &mut conflicts);
        self.apply_phase(changes, Phase::Tasks, stamp, &mut conflicts);
        self.apply_phase(changes, Phase::Deletions, stamp, &mut conflicts);
        Ok(conflicts)
    }

    /// Applies a batch of changes. The memberships that tasks bring are stamped with the time
    /// of the clock, so the outcome is that of [`Database::apply_changes_at`] for some stamp.
    pub fn apply_changes(&mut self, changes: &[SyncRecord]) -> (r: Result<Vec<String>, SyncError>)
        requires
            old(self).wf(),
        ensures
            final(self).wf(),
            match r {
                Ok(conflicts) => {
                    &&& all_valid(views(changes@))
                    &&& exists|stamp: Seq<char>|
                        {
                            &&& final(self)@ == (#[trigger] merged(
                                old(self)@,
                                views(changes@),
                                stamp,
                            )).store
                            &&& all_chars(conflicts@) == merged(
                                old(self)@,
                                views(changes@),
                                stamp,
                            ).conflicts
                        }
                },
                Err(SyncError::MalformedRecord(i)) => {
                    &&& first_malformed(views(changes@), i as int)
                    &&& final(self)@ == old(self)@
                },
                Err(_) => false,
            },
    {
        let stamp = clock_rfc3339();
        self.apply_changes_at(changes, stamp.as_str())
    }
}

} // verus!
