//! The change extractor: what a device has not seen yet.
//!
//! A list and a task count as changed at their `updated_at`, a tombstone at its `deleted_at`.
//! A tag counts at its `created_at`: its optional `updated_at` is carried along and plays no
//! part, so a tag that was replaced under its old time of creation is told again only to a
//! device that asks for everything or has a watermark before that time.

use vstd::prelude::*;
use crate::db::{
    list_after, tag_after, tagged, task_after, tombstone_after, Database, DatabaseView,
    Tombstone, TombstoneView,
};
use crate::error::SyncError;
use crate::models::{
    views, List, ListView, SyncRecord, SyncRecordView, Tag, TagView, Task, TaskView,
};
use crate::text::opt_text;
use crate::timestamp::{instant_of, is_timestamp, rfc3339_instant};

verus! {

/// A list as a change record.
pub open spec fn list_record() -> spec_fn(ListView) -> SyncRecordView {
    |list: ListView| SyncRecordView::List(list)
}

/// A tag as a change record.
pub open spec fn tag_record() -> spec_fn(TagView) -> SyncRecordView {
    |tag: TagView| SyncRecordView::Tag(tag)
}

/// A task as a change record.
pub open spec fn task_record() -> spec_fn(TaskView) -> SyncRecordView {
    |task: TaskView| SyncRecordView::Task(task)
}

/// A tombstone as a change record.
pub open spec fn deletion_record() -> spec_fn(TombstoneView) -> SyncRecordView {
    |tombstone: TombstoneView|
        SyncRecordView::Deleted {
            id: tombstone.id,
            record_type: tombstone.record_type,
            deleted_at: tombstone.deleted_at,
        }
}

/// The changes after the watermark, or the whole store where there is none: the lists changed
/// after it, the tags created after it, the tasks changed after it, each with the tags that it
/// carries, and the tombstones written after it. Within a kind the rows keep the order of the
/// store.
pub open spec fn changes_since(s: DatabaseView, mark: Option<(i64, u32)>) -> Seq<SyncRecordView> {
    s.lists.filter(list_after(mark)).map_values(list_record()) + s.tags.filter(
        tag_after(mark),
    ).map_values(tag_record()) + s.tasks.filter(task_after(mark)).map_values(
        tagged(s.task_tags),
    ).map_values(task_record()) + s.tombstones.filter(tombstone_after(mark)).map_values(
        deletion_record(),
    )
}

/// The watermark is absent or denotes an instant.
pub open spec fn watermark_ok(since: Option<Seq<char>>) -> bool {
    match since {
        Some(text) => is_timestamp(text),
        None => true,
    }
}

/// The instant of the watermark, if there is one.
pub open spec fn watermark(since: Option<Seq<char>>) -> Option<(i64, u32)> {
    match since {
        Some(text) => rfc3339_instant(text),
        None => None,
    }
}

/// Reads the watermark of a request.
pub fn read_watermark(since: Option<&str>) -> (r: Result<Option<(i64, u32)>, SyncError>)
    ensures
        match r {
            Ok(mark) => watermark_ok(opt_text(since)) && mark == watermark(opt_text(since)),
            Err(e) => !watermark_ok(opt_text(since)) && e == SyncError::MalformedWatermark,
        },
{
    match since {
        Some(text) => match instant_of(text) {
            Some(at) => Ok(Some(at)),
            None => Err(SyncError::MalformedWatermark),
        },
        None => Ok(None),
    }
}

fn push_lists(out: &mut Vec<SyncRecord>, lists: &Vec<List>)
    ensures
        views(final(out)@) == views(old(out)@) + views(lists@).map_values(list_record()),
{
    let ghost start = views(out@);
    let mut i: usize = 0;
    assert(views(out@) =~= start + views(lists@).take(0).map_values(list_record()));
    while i < lists.len()
        invariant
            i <= lists@.len(),
            views(out@) == start + views(lists@).take(i as int).map_values(list_record()),
        decreases lists@.len() - i,
    {
        let ghost sofar = views(out@);
        out.push(SyncRecord::List(lists[i].clone()));
        assert(views(out@) =~= sofar.push(list_record()(views(lists@)[i as int])));
        assert(views(out@) =~= start + views(lists@).take(i + 1).map_values(list_record()));
        i += 1;
    }
    assert(views(lists@).take(i as int) =~= views(lists@));
}

fn push_tags(out: &mut Vec<SyncRecord>, tags: &Vec<Tag>)
    ensures
        views(final(out)@) == views(old(out)@) + views(tags@).map_values(tag_record()),
{
    let ghost start = views(out@);
    let mut i: usize = 0;
    assert(views(out@) =~= start + views(tags@).take(0).map_values(tag_record()));
    while i < tags.len()
        invariant
            i <= tags@.len(),
            views(out@) == start + views(tags@).take(i as int).map_values(tag_record()),
        decreases tags@.len() - i,
    {
        let ghost sofar = views(out@);
        out.push(SyncRecord::Tag(tags[i].clone()));
        assert(views(out@) =~= sofar.push(tag_record()(views(tags@)[i as int])));
        assert(views(out@) =~= start + views(tags@).take(i + 1).map_values(tag_record()));
        i += 1;
    }
    assert(views(tags@).take(i as int) =~= views(tags@));
}

fn push_tasks(out: &mut Vec<SyncRecord>, tasks: &Vec<Task>)
    ensures
        views(final(out)@) == views(old(out)@) + views(tasks@).map_values(task_record()),
{
    let ghost start = views(out@);
    let mut i: usize = 0;
    assert(views(out@) =~= start + views(tasks@).take(0).map_values(task_record()));
    while i < tasks.len()
        invariant
            i <= tasks@.len(),
            views(out@) == start + views(tasks@).take(i as int).map_values(task_record()),
        decreases tasks@.len() - i,
    {
        let ghost sofar = views(out@);
        out.push(SyncRecord::Task(tasks[i].clone()));
        assert(views(out@) =~= sofar.push(task_record()(views(tasks@)[i as int])));
        assert(views(out@) =~= start + views(tasks@).take(i + 1).map_values(task_record()));
        i += 1;
    }
    assert(views(tasks@).take(i as int) =~= views(tasks@));
}

fn push_deletions(out: &mut Vec<SyncRecord>, tombstones: &Vec<Tombstone>)
    ensures
        views(final(out)@) == views(old(out)@) + views(tombstones@).map_values(deletion_record()),
{
    let ghost start = views(out@);
    let mut i: usize = 0;
    assert(views(out@) =~= start + views(tombstones@).take(0).map_values(deletion_record()));
    while i < tombstones.len()
        invariant
            i <= tombstones@.len(),
            views(out@) == start + views(tombstones@).take(i as int).map_values(deletion_record()),
        decreases tombstones@.len() - i,
    {
        let ghost sofar = views(out@);
        out.push(
            SyncRecord::Deleted {
                id: tombstones[i].id.clone(),
                record_type: tombstones[i].record_type,
                deleted_at: tombstones[i].deleted_at.clone(),
            },
        );
        assert(views(out@) =~= sofar.push(deletion_record()(views(tombstones@)[i as int])));
        assert(views(out@) =~= start + views(tombstones@).take(i + 1).map_values(
            deletion_record(),
        ));
        i += 1;
    }
    assert(views(tombstones@).take(i as int) =~= views(tombstones@));
}

impl Database {
    /// The changes after the instant `mark`, or the whole store where there is none.
    pub fn changes_after(&self, mark: Option<(i64, u32)>) -> (r: Vec<SyncRecord>)
        ensures
            views(r@) == changes_since(self@, mark),
    {
        let mut out: Vec<SyncRecord> = Vec::new();
        assert(views(out@) =~= Seq::empty());
        let lists = self.collect_lists(mark);
        push_lists(&mut out, &lists);
        let tags = self.collect_tags(mark);
        push_tags(&mut out, &tags);
        let tasks = self.collect_tasks(mark);
        push_tasks(&mut out, &tasks);
        let tombstones = self.collect_tombstones(mark);
        push_deletions(&mut out, &tombstones);
        assert(views(out@) =~= changes_since(self@, mark));
        out
    }

    /// The changes after the watermark `since`, or the whole store where there is none. A
    /// watermark that denotes no instant is refused.
    pub fn get_changes_since(&self, since: Option<&str>) -> (r: Result<
        Vec<SyncRecord>,
        SyncError,
    >)
        ensures
            match r {
                Ok(changes) => {
                    &&& watermark_ok(opt_text(since))
                    &&& views(changes@) == changes_since(self@, watermark(opt_text(since)))
                },
                Err(e) => !watermark_ok(opt_text(since)) && e == SyncError::MalformedWatermark,
            },
    {
        match read_watermark(since) {
            Ok(mark) => Ok(self.changes_after(mark)),
            Err(e) => Err(e),
        }
    }
}

} // verus!
