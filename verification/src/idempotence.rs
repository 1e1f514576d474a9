//! Applying a batch a second time.
//!
//! A second application of a batch changes nothing and reports every change to a list or a
//! task as a conflict, provided that the first application did not undo part of the batch
//! itself: see [`settled`].

use vstd::prelude::*;
use crate::db::{
    link_stays, list_stays, tag_stays, task_stays, Database, DatabaseView, TombstoneView,
};
use crate::laws::{lemma_merged_wf, lemma_pass_wf};
use crate::merge::{
    all_valid, applied, deleted, list_merged, list_overwritten, list_rejected, merged, pass,
    phase_of, task_merged, task_overwritten, task_rejected, Outcome, Phase,
};
use crate::models::{
    views, ListView, RecordType, SyncRecord, SyncRecordView, TagView, TaskView,
};
use crate::table::{
    all_rows, holds, last_of, lemma_filter_all, lemma_filter_distinct, lemma_filter_keeps,
    lemma_filter_lookup, lemma_filtered, lemma_last_of, lemma_lookup_in, lemma_put_lookup,
    lemma_replayed_fixed, lemma_replayed_lookup, lookup, replayed, Keyed,
};

verus! {

/// The store holds what the record brings: the row of the list, tag or task that it changes,
/// or the membership. A deletion brings nothing.
pub open spec fn present(s: DatabaseView, record: SyncRecordView) -> bool {
    match record {
        SyncRecordView::List(list) => holds(s.lists, list.id),
        SyncRecordView::Tag(tag) => holds(s.tags, tag.id),
        SyncRecordView::Task(task) => holds(s.tasks, task.id),
        SyncRecordView::TaskTag(link) => holds(s.task_tags, (link.task_id, link.tag_id)),
        SyncRecordView::Deleted { .. } => true,
    }
}

/// The store holds what every record of the batch brings. After a batch was applied this
/// says that the batch did not undo itself: no deletion in it removed a list, tag or task that
/// it also changes, and no task or deletion in it removed a membership that it also brings.
pub open spec fn settled(s: DatabaseView, batch: Seq<SyncRecordView>) -> bool {
    forall|i: int| 0 <= i < batch.len() ==> present(s, #[trigger] batch[i])
}

/// The store holds the row of the list or task that the record changes.
pub open spec fn row_present(s: DatabaseView, record: SyncRecordView) -> bool {
    match record {
        SyncRecordView::List(list) => holds(s.lists, list.id),
        SyncRecordView::Task(task) => holds(s.tasks, task.id),
        _ => true,
    }
}

/// The store holds the row of every list and task that the batch changes. After a batch was
/// applied this says that no deletion in it removed a list or a task that it also changes.
pub open spec fn rows_kept(s: DatabaseView, batch: Seq<SyncRecordView>) -> bool {
    forall|i: int| 0 <= i < batch.len() ==> row_present(s, #[trigger] batch[i])
}

/// Whether the store holds what the record brings.
pub fn is_present(db: &Database, record: &SyncRecord) -> (r: bool)
    ensures
        r == present(db@, record@),
{
    match record {
        SyncRecord::List(list) => db.has_list(list.id.as_str()),
        SyncRecord::Tag(tag) => db.has_tag(tag.id.as_str()),
        SyncRecord::Task(task) => db.has_task(task.id.as_str()),
        SyncRecord::TaskTag(link) => db.has_task_tag(link.task_id.as_str(), link.tag_id.as_str()),
        SyncRecord::Deleted { .. } => true,
    }
}

/// Whether the store holds what every record of the batch brings.
pub fn is_settled(db: &Database, changes: &[SyncRecord]) -> (r: bool)
    ensures
        r == settled(db@, views(changes@)),
{
    let mut i: usize = 0;
    while i < changes.len()
        invariant
            i <= changes@.len(),
            forall|j: int| 0 <= j < i ==> present(db@, #[trigger] views(changes@)[j]),
        decreases changes@.len() - i,
    {
        if !is_present(db, &changes[i]) {
            assert(!present(db@, views(changes@)[i as int]));
            return false;
        }
        i += 1;
    }
    true
}

/// A change to a list or a task loses against the store.
pub open spec fn loses(s: DatabaseView, record: SyncRecordView) -> bool {
    match record {
        SyncRecordView::List(list) => list_rejected(s, list),
        SyncRecordView::Task(task) => task_rejected(s, task),
        _ => true,
    }
}

/// Every record of the turn loses against the store.
pub open spec fn all_lose(s: DatabaseView, batch: Seq<SyncRecordView>, phase: Phase) -> bool {
    forall|i: int|
        0 <= i < batch.len() && phase_of(#[trigger] batch[i]) == phase ==> loses(s, batch[i])
}

/// The store holds no row that the deletion removes.
pub open spec fn swept(s: DatabaseView, record: SyncRecordView) -> bool {
    match record {
        SyncRecordView::Deleted { id, record_type, deleted_at } => match record_type {
            RecordType::Task => all_rows(s.tasks, task_stays(id)),
            RecordType::List => all_rows(s.lists, list_stays(id)),
            RecordType::Tag => all_rows(s.tags, tag_stays(id)),
            RecordType::TaskTag => all_rows(s.task_tags, link_stays(id)),
        },
        _ => true,
    }
}

/// The store holds no row that a deletion of the batch removes.
pub open spec fn all_swept(s: DatabaseView, batch: Seq<SyncRecordView>) -> bool {
    forall|i: int| 0 <= i < batch.len() ==> swept(s, #[trigger] batch[i])
}

/// The ids of the records of a turn, in the order of the batch.
pub open spec fn ids_in(batch: Seq<SyncRecordView>, phase: Phase) -> Seq<Seq<char>>
    decreases batch.len(),
{
    if batch.len() == 0 {
        Seq::empty()
    } else if phase_of(batch.last()) == phase {
        match batch.last() {
            SyncRecordView::List(list) => ids_in(batch.drop_last(), phase).push(list.id),
            SyncRecordView::Task(task) => ids_in(batch.drop_last(), phase).push(task.id),
            _ => ids_in(batch.drop_last(), phase),
        }
    } else {
        ids_in(batch.drop_last(), phase)
    }
}

/// The tags that a batch brings, in its order.
pub open spec fn tags_in(batch: Seq<SyncRecordView>) -> Seq<TagView>
    decreases batch.len(),
{
    if batch.len() == 0 {
        Seq::empty()
    } else {
        match batch.last() {
            SyncRecordView::Tag(tag) => tags_in(batch.drop_last()).push(tag),
            _ => tags_in(batch.drop_last()),
        }
    }
}

/// The tombstones that a batch writes, in its order.
pub open spec fn tombstones_in(batch: Seq<SyncRecordView>) -> Seq<TombstoneView>
    decreases batch.len(),
{
    if batch.len() == 0 {
        Seq::empty()
    } else {
        match batch.last() {
            SyncRecordView::Deleted { id, record_type, deleted_at } => tombstones_in(
                batch.drop_last(),
            ).push(TombstoneView { id, record_type, deleted_at }),
            _ => tombstones_in(batch.drop_last()),
        }
    }
}

proof fn lemma_front_valid(batch: Seq<SyncRecordView>)
    requires
        all_valid(batch),
        batch.len() > 0,
    ensures
        all_valid(batch.drop_last()),
        batch.last().valid(),
{
    let front = batch.drop_last();
    assert forall|i: int| 0 <= i < front.len() implies (#[trigger] front[i]).valid() by {
        assert(batch[i].valid());
    }
    assert(batch[batch.len() - 1].valid());
}

/// After a change to a list was merged, the change loses, and so does every change that lost
/// before.
proof fn lemma_list_merged_covers(s: DatabaseView, change: ListView, other: ListView)
    requires
        s.wf(),
        change.valid(),
        other.valid(),
    ensures
        list_rejected(list_merged(s, change), change),
        list_rejected(s, other) ==> list_rejected(list_merged(s, change), other),
{
    match lookup(s.lists, change.id) {
        Some(stored) => {
            lemma_lookup_in(s.lists, change.id);
            lemma_put_lookup(s.lists, list_overwritten(stored, change));
        },
        None => {
            lemma_put_lookup(s.lists, change);
        },
    }
    if list_rejected(s, other) {
        lemma_lookup_in(s.lists, other.id);
    }
}

/// After a change to a task was merged, the change loses, and so does every change that lost
/// before.
proof fn lemma_task_merged_covers(
    s: DatabaseView,
    change: TaskView,
    other: TaskView,
    stamp: Seq<char>,
)
    requires
        s.wf(),
        change.valid(),
        other.valid(),
    ensures
        task_rejected(task_merged(s, change, stamp), change),
        task_rejected(s, other) ==> task_rejected(task_merged(s, change, stamp), other),
{
    match lookup(s.tasks, change.id) {
        Some(stored) => {
            lemma_lookup_in(s.tasks, change.id);
            lemma_put_lookup(s.tasks, task_overwritten(stored, change));
        },
        None => {
            lemma_put_lookup(s.tasks, change.row());
        },
    }
    if task_rejected(s, other) {
        lemma_lookup_in(s.tasks, other.id);
    }
}

/// The turn of the lists touches the lists only, and every change to a list loses afterwards.
proof fn lemma_lists_pass(o: Outcome, batch: Seq<SyncRecordView>, stamp: Seq<char>)
    requires
        o.store.wf(),
        all_valid(batch),
    ensures
        ({
            let after = pass(o, batch, Phase::Lists, stamp).store;
            &&& after == (DatabaseView { lists: after.lists, ..o.store })
            &&& all_lose(after, batch, Phase::Lists)
        }),
    decreases batch.len(),
{
    if batch.len() > 0 {
        let front = batch.drop_last();
        lemma_front_valid(batch);
        lemma_lists_pass(o, front, stamp);
        lemma_pass_wf(o, front, Phase::Lists, stamp);
        let before = pass(o, front, Phase::Lists, stamp).store;
        let after = pass(o, batch, Phase::Lists, stamp).store;
        assert forall|i: int|
            0 <= i < batch.len() && phase_of(#[trigger] batch[i]) == Phase::Lists implies loses(
            after,
            batch[i],
        ) by {
            if i < front.len() {
                assert(loses(before, front[i]));
                assert(front[i].valid());
            }
            match (batch.last(), batch[i]) {
                (SyncRecordView::List(change), SyncRecordView::List(other)) => {
                    lemma_list_merged_covers(before, change, other);
                },
                _ => {},
            }
        }
    }
}

/// The turn of the tasks touches the tasks and the memberships only, and every change to a
/// task loses afterwards.
proof fn lemma_tasks_pass(o: Outcome, batch: Seq<SyncRecordView>, stamp: Seq<char>)
    requires
        o.store.wf(),
        all_valid(batch),
    ensures
        ({
            let after = pass(o, batch, Phase::Tasks, stamp).store;
            &&& after == (DatabaseView {
                tasks: after.tasks,
                task_tags: after.task_tags,
                ..o.store
            })
            &&& all_lose(after, batch, Phase::Tasks)
        }),
    decreases batch.len(),
{
    if batch.len() > 0 {
        let front = batch.drop_last();
        lemma_front_valid(batch);
        lemma_tasks_pass(o, front, stamp);
        lemma_pass_wf(o, front, Phase::Tasks, stamp);
        let before = pass(o, front, Phase::Tasks, stamp).store;
        let after = pass(o, batch, Phase::Tasks, stamp).store;
        assert forall|i: int|
            0 <= i < batch.len() && phase_of(#[trigger] batch[i]) == Phase::Tasks implies loses(
            after,
            batch[i],
        ) by {
            if i < front.len() {
                assert(loses(before, front[i]));
                assert(front[i].valid());
            }
            match (batch.last(), batch[i]) {
                (SyncRecordView::Task(change), SyncRecordView::Task(other)) => {
                    lemma_task_merged_covers(before, change, other, stamp);
                },
                _ => {},
            }
        }
    }
}

/// The turn of the tags replays the tags of the batch over the tags table and touches nothing
/// else.
proof fn lemma_tags_pass(o: Outcome, batch: Seq<SyncRecordView>, stamp: Seq<char>)
    ensures
        pass(o, batch, Phase::Tags, stamp) == (Outcome {
            store: DatabaseView { tags: replayed(o.store.tags, tags_in(batch)), ..o.store },
            ..o
        }),
    decreases batch.len(),
{
    if batch.len() > 0 {
        lemma_tags_pass(o, batch.drop_last(), stamp);
        match batch.last() {
            SyncRecordView::Tag(tag) => {
                assert(tags_in(batch).drop_last() =~= tags_in(batch.drop_last()));
            },
            _ => {},
        }
    }
}

/// The turn of the memberships touches the memberships only.
proof fn lemma_links_pass(o: Outcome, batch: Seq<SyncRecordView>, stamp: Seq<char>)
    ensures
        ({
            let after = pass(o, batch, Phase::TaskTags, stamp);
            after == (Outcome {
                store: DatabaseView { task_tags: after.store.task_tags, ..o.store },
                ..o
            })
        }),
    decreases batch.len(),
{
    if batch.len() > 0 {
        lemma_links_pass(o, batch.drop_last(), stamp);
    }
}

/// Every tag that a batch brings stands in one of its records, and the other way round.
proof fn lemma_tags_in(batch: Seq<SyncRecordView>)
    ensures
        forall|j: int|
            0 <= j < tags_in(batch).len() ==> batch.contains(
                SyncRecordView::Tag(#[trigger] tags_in(batch)[j]),
            ),
    decreases batch.len(),
{
    if batch.len() > 0 {
        let front = batch.drop_last();
        lemma_tags_in(front);
        assert forall|j: int| 0 <= j < tags_in(batch).len() implies batch.contains(
            SyncRecordView::Tag(#[trigger] tags_in(batch)[j]),
        ) by {
            if j < tags_in(front).len() {
                let record = SyncRecordView::Tag(tags_in(front)[j]);
                assert(front.contains(record));
                let i = choose|i: int| 0 <= i < front.len() && front[i] == record;
                assert(batch[i] == record);
            } else {
                assert(batch[batch.len() - 1] == SyncRecordView::Tag(tags_in(batch)[j]));
            }
        }
    }
}

/// The turn of the deletions replays the tombstones of the batch over the tombstones table
/// and takes rows out of the other tables: afterwards no row is left that a deletion of the
/// batch removes, and a list, tag or task that is still held is as it was.
proof fn lemma_deletions_pass(o: Outcome, batch: Seq<SyncRecordView>, stamp: Seq<char>)
    requires
        o.store.wf(),
        all_valid(batch),
    ensures
        ({
            let after = pass(o, batch, Phase::Deletions, stamp);
            &&& after.conflicts == o.conflicts
            &&& after.store.device_sync == o.store.device_sync
            &&& after.store.tombstones == replayed(o.store.tombstones, tombstones_in(batch))
            &&& all_swept(after.store, batch)
            &&& forall|k: Seq<char>| #[trigger]
                holds(after.store.lists, k) ==> lookup(after.store.lists, k) == lookup(
                    o.store.lists,
                    k,
                )
            &&& forall|k: Seq<char>| #[trigger]
                holds(after.store.tags, k) ==> lookup(after.store.tags, k) == lookup(
                    o.store.tags,
                    k,
                )
            &&& forall|k: Seq<char>| #[trigger]
                holds(after.store.tasks, k) ==> lookup(after.store.tasks, k) == lookup(
                    o.store.tasks,
                    k,
                )
        }),
    decreases batch.len(),
{
    if batch.len() > 0 {
        let front = batch.drop_last();
        lemma_front_valid(batch);
        lemma_deletions_pass(o, front, stamp);
        lemma_pass_wf(o, front, Phase::Deletions, stamp);
        let before = pass(o, front, Phase::Deletions, stamp).store;
        let after = pass(o, batch, Phase::Deletions, stamp).store;
        match batch.last() {
            SyncRecordView::Deleted { id, record_type, deleted_at } => {
                assert(tombstones_in(batch).drop_last() =~= tombstones_in(front));
                assert(after == deleted(before, id, record_type, deleted_at));
                lemma_filtered(before.tasks, task_stays(id));
                lemma_filtered(before.lists, list_stays(id));
                lemma_filtered(before.tags, tag_stays(id));
                lemma_filtered(before.task_tags, link_stays(id));
                lemma_filter_distinct(before.lists, list_stays(id));
                lemma_filter_distinct(before.tags, tag_stays(id));
                lemma_filter_distinct(before.tasks, task_stays(id));
                assert forall|i: int| 0 <= i < batch.len() implies swept(
                    after,
                    #[trigger] batch[i],
                ) by {
                    if i < front.len() {
                        assert(swept(before, front[i]));
                        lemma_swept_stays(before, front[i], id, record_type, deleted_at);
                    }
                }
                assert forall|k: Seq<char>| #[trigger]
                    holds(after.lists, k) implies lookup(after.lists, k) == lookup(
                    o.store.lists,
                    k,
                ) by {
                    lemma_filter_lookup(before.lists, list_stays(id), k);
                    assert(holds(before.lists, k));
                }
                assert forall|k: Seq<char>| #[trigger]
                    holds(after.tags, k) implies lookup(after.tags, k) == lookup(
                    o.store.tags,
                    k,
                ) by {
                    lemma_filter_lookup(before.tags, tag_stays(id), k);
                    assert(holds(before.tags, k));
                }
                assert forall|k: Seq<char>| #[trigger]
                    holds(after.tasks, k) implies lookup(after.tasks, k) == lookup(
                    o.store.tasks,
                    k,
                ) by {
                    lemma_filter_lookup(before.tasks, task_stays(id), k);
                    assert(holds(before.tasks, k));
                }
            },
            _ => {
                assert forall|i: int| 0 <= i < batch.len() implies swept(
                    after,
                    #[trigger] batch[i],
                ) by {
                    if i < front.len() {
                        assert(swept(before, front[i]));
                    }
                }
            },
        }
    }
}

/// A further deletion leaves no row that an earlier one removed.
proof fn lemma_swept_stays(
    s: DatabaseView,
    record: SyncRecordView,
    id: Seq<char>,
    record_type: RecordType,
    deleted_at: Seq<char>,
)
    requires
        swept(s, record),
    ensures
        swept(deleted(s, id, record_type, deleted_at), record),
{
    match record {
        SyncRecordView::Deleted { id: gone, record_type: kind, deleted_at: at } => {
            match kind {
                RecordType::Task => lemma_filter_keeps(s.tasks, task_stays(id), task_stays(gone)),
                RecordType::List => lemma_filter_keeps(s.lists, list_stays(id), list_stays(gone)),
                RecordType::Tag => lemma_filter_keeps(s.tags, tag_stays(id), tag_stays(gone)),
                RecordType::TaskTag => lemma_filter_keeps(
                    s.task_tags,
                    link_stays(id),
                    link_stays(gone),
                ),
            }
        },
        _ => {},
    }
}

/// Where every change to a list loses, the turn of the lists leaves the store as it is and
/// reports each of them.
proof fn lemma_lists_pass_again(o: Outcome, batch: Seq<SyncRecordView>, stamp: Seq<char>)
    requires
        all_lose(o.store, batch, Phase::Lists),
    ensures
        pass(o, batch, Phase::Lists, stamp) == (Outcome {
            store: o.store,
            conflicts: o.conflicts + ids_in(batch, Phase::Lists),
        }),
    decreases batch.len(),
{
    if batch.len() == 0 {
        assert(o.conflicts + ids_in(batch, Phase::Lists) =~= o.conflicts);
    } else {
        let front = batch.drop_last();
        assert forall|i: int|
            0 <= i < front.len() && phase_of(#[trigger] front[i]) == Phase::Lists implies loses(
            o.store,
            front[i],
        ) by {
            assert(loses(o.store, batch[i]));
        }
        lemma_lists_pass_again(o, front, stamp);
        assert(phase_of(batch[batch.len() - 1]) == Phase::Lists ==> loses(o.store, batch.last()));
        match batch.last() {
            SyncRecordView::List(list) => {
                assert((o.conflicts + ids_in(front, Phase::Lists)).push(list.id) =~= o.conflicts
                    + ids_in(batch, Phase::Lists));
            },
            _ => {},
        }
    }
}

/// Where every change to a task loses, the turn of the tasks leaves the store as it is and
/// reports each of them.
proof fn lemma_tasks_pass_again(o: Outcome, batch: Seq<SyncRecordView>, stamp: Seq<char>)
    requires
        all_lose(o.store, batch, Phase::Tasks),
    ensures
        pass(o, batch, Phase::Tasks, stamp) == (Outcome {
            store: o.store,
            conflicts: o.conflicts + ids_in(batch, Phase::Tasks),
        }),
    decreases batch.len(),
{
    if batch.len() == 0 {
        assert(o.conflicts + ids_in(batch, Phase::Tasks) =~= o.conflicts);
    } else {
        let front = batch.drop_last();
        assert forall|i: int|
            0 <= i < front.len() && phase_of(#[trigger] front[i]) == Phase::Tasks implies loses(
            o.store,
            front[i],
        ) by {
            assert(loses(o.store, batch[i]));
        }
        lemma_tasks_pass_again(o, front, stamp);
        assert(phase_of(batch[batch.len() - 1]) == Phase::Tasks ==> loses(o.store, batch.last()));
        match batch.last() {
            SyncRecordView::Task(task) => {
                assert((o.conflicts + ids_in(front, Phase::Tasks)).push(task.id) =~= o.conflicts
                    + ids_in(batch, Phase::Tasks));
            },
            _ => {},
        }
    }
}

/// Where the store holds every membership that the batch brings, the turn of the memberships
/// changes nothing.
proof fn lemma_links_pass_again(o: Outcome, batch: Seq<SyncRecordView>, stamp: Seq<char>)
    requires
        settled(o.store, batch),
    ensures
        pass(o, batch, Phase::TaskTags, stamp) == o,
    decreases batch.len(),
{
    if batch.len() > 0 {
        let front = batch.drop_last();
        assert forall|i: int| 0 <= i < front.len() implies present(o.store, #[trigger] front[i]) by {
            assert(present(o.store, batch[i]));
        }
        lemma_links_pass_again(o, front, stamp);
        assert(present(o.store, batch[batch.len() - 1]));
    }
}

/// Where the store holds no row that a deletion of the batch removes, the turn of the
/// deletions replays the tombstones and touches nothing else.
proof fn lemma_deletions_pass_again(o: Outcome, batch: Seq<SyncRecordView>, stamp: Seq<char>)
    requires
        all_swept(o.store, batch),
    ensures
        pass(o, batch, Phase::Deletions, stamp) == (Outcome {
            store: DatabaseView {
                tombstones: replayed(o.store.tombstones, tombstones_in(batch)),
                ..o.store
            },
            ..o
        }),
    decreases batch.len(),
{
    if batch.len() > 0 {
        let front = batch.drop_last();
        assert forall|i: int| 0 <= i < front.len() implies swept(o.store, #[trigger] front[i]) by {
            assert(swept(o.store, batch[i]));
        }
        lemma_deletions_pass_again(o, front, stamp);
        assert(swept(o.store, batch[batch.len() - 1]));
        match batch.last() {
            SyncRecordView::Deleted { id, record_type, deleted_at } => {
                assert(tombstones_in(batch).drop_last() =~= tombstones_in(front));
                match record_type {
                    RecordType::Task => lemma_filter_all(o.store.tasks, task_stays(id)),
                    RecordType::List => lemma_filter_all(o.store.lists, list_stays(id)),
                    RecordType::Tag => lemma_filter_all(o.store.tags, tag_stays(id)),
                    RecordType::TaskTag => lemma_filter_all(o.store.task_tags, link_stays(id)),
                }
            },
            _ => {},
        }
    }
}

/// The id of every change to a list is among the ids of the turn of the lists, and that of
/// every change to a task among those of the turn of the tasks.
proof fn lemma_ids_in(batch: Seq<SyncRecordView>, i: int)
    requires
        0 <= i < batch.len(),
    ensures
        match batch[i] {
            SyncRecordView::List(list) => ids_in(batch, Phase::Lists).contains(list.id),
            SyncRecordView::Task(task) => ids_in(batch, Phase::Tasks).contains(task.id),
            _ => true,
        },
    decreases batch.len(),
{
    let front = batch.drop_last();
    if i < front.len() {
        lemma_ids_in(front, i);
        assert(front[i] == batch[i]);
        match batch[i] {
            SyncRecordView::List(list) => {
                let j = choose|j: int|
                    0 <= j < ids_in(front, Phase::Lists).len() && ids_in(front, Phase::Lists)[j]
                        == list.id;
                assert(ids_in(batch, Phase::Lists)[j] == list.id);
            },
            SyncRecordView::Task(task) => {
                let j = choose|j: int|
                    0 <= j < ids_in(front, Phase::Tasks).len() && ids_in(front, Phase::Tasks)[j]
                        == task.id;
                assert(ids_in(batch, Phase::Tasks)[j] == task.id);
            },
            _ => {},
        }
    } else {
        match batch[i] {
            SyncRecordView::List(list) => {
                let ids = ids_in(batch, Phase::Lists);
                assert(ids[ids.len() - 1] == list.id);
            },
            SyncRecordView::Task(task) => {
                let ids = ids_in(batch, Phase::Tasks);
                assert(ids[ids.len() - 1] == task.id);
            },
            _ => {},
        }
    }
}

/// Idempotence, the store. Applying a batch a second time leaves the store as the first
/// application left it. This holds where the first application did not undo part of the
/// batch itself, which [`settled`] says, whatever the stamps of the two applications.
pub proof fn law_second_application_changes_nothing(
    s: DatabaseView,
    batch: Seq<SyncRecordView>,
    stamp: Seq<char>,
    second_stamp: Seq<char>,
)
    requires
        s.wf(),
        all_valid(batch),
        settled(merged(s, batch, stamp).store, batch),
    ensures
        merged(merged(s, batch, stamp).store, batch, second_stamp).store == merged(
            s,
            batch,
            stamp,
        ).store,
{
    let start = Outcome { store: s, conflicts: Seq::empty() };
    let lists = pass(start, batch, Phase::Lists, stamp);
    let tags = pass(lists, batch, Phase::Tags, stamp);
    let links = pass(tags, batch, Phase::TaskTags, stamp);
    let tasks = pass(links, batch, Phase::Tasks, stamp);
    let once = pass(tasks, batch, Phase::Deletions, stamp);
    assert(once == merged(s, batch, stamp));
    lemma_pass_wf(start, batch, Phase::Lists, stamp);
    lemma_pass_wf(lists, batch, Phase::Tags, stamp);
    lemma_pass_wf(tags, batch, Phase::TaskTags, stamp);
    lemma_pass_wf(links, batch, Phase::Tasks, stamp);
    lemma_pass_wf(tasks, batch, Phase::Deletions, stamp);
    lemma_lists_pass(start, batch, stamp);
    lemma_tags_pass(lists, batch, stamp);
    lemma_links_pass(tags, batch, stamp);
    lemma_tasks_pass(links, batch, stamp);
    lemma_deletions_pass(tasks, batch, stamp);
    let after = once.store;

    assert forall|i: int| 0 <= i < batch.len() implies row_present(after, #[trigger] batch[i]) by {
        assert(present(after, batch[i]));
    }
    lemma_changes_lose_afterwards(s, batch, stamp);
    let brought = tags_in(batch);
    lemma_tags_in(batch);
    assert forall|j: int| 0 <= j < brought.len() implies lookup(
        after.tags,
        (#[trigger] brought[j]).key(),
    ) == last_of(brought, brought[j].key()) by {
        let record = SyncRecordView::Tag(brought[j]);
        assert(batch.contains(record));
        let i = choose|i: int| 0 <= i < batch.len() && batch[i] == record;
        assert(present(after, batch[i]));
        assert(holds(after.tags, brought[j].id));
        lemma_replayed_lookup(lists.store.tags, brought, brought[j].key());
        lemma_last_of(brought, brought[j].key());
    }
    let written = tombstones_in(batch);
    assert forall|j: int| 0 <= j < written.len() implies lookup(
        after.tombstones,
        (#[trigger] written[j]).key(),
    ) == last_of(written, written[j].key()) by {
        lemma_replayed_lookup(tasks.store.tombstones, written, written[j].key());
        lemma_last_of(written, written[j].key());
    }

    let again = Outcome { store: after, conflicts: Seq::empty() };
    lemma_lists_pass_again(again, batch, second_stamp);
    let lists2 = pass(again, batch, Phase::Lists, second_stamp);
    lemma_tags_pass(lists2, batch, second_stamp);
    lemma_replayed_fixed(after.tags, brought);
    let tags2 = pass(lists2, batch, Phase::Tags, second_stamp);
    assert(tags2 == lists2);
    lemma_links_pass_again(tags2, batch, second_stamp);
    let links2 = pass(tags2, batch, Phase::TaskTags, second_stamp);
    lemma_tasks_pass_again(links2, batch, second_stamp);
    let tasks2 = pass(links2, batch, Phase::Tasks, second_stamp);
    lemma_deletions_pass_again(tasks2, batch, second_stamp);
    lemma_replayed_fixed(after.tombstones, written);
    let twice = pass(tasks2, batch, Phase::Deletions, second_stamp);
    assert(twice == merged(after, batch, second_stamp));
    assert(twice.store == after);
}

/// After a batch was applied, every change in it to a list or a task whose row is still held
/// loses against the store.
proof fn lemma_changes_lose_afterwards(
    s: DatabaseView,
    batch: Seq<SyncRecordView>,
    stamp: Seq<char>,
)
    requires
        s.wf(),
        all_valid(batch),
        rows_kept(merged(s, batch, stamp).store, batch),
    ensures
        all_lose(merged(s, batch, stamp).store, batch, Phase::Lists),
        all_lose(merged(s, batch, stamp).store, batch, Phase::Tasks),
{
    let start = Outcome { store: s, conflicts: Seq::empty() };
    let lists = pass(start, batch, Phase::Lists, stamp);
    let tags = pass(lists, batch, Phase::Tags, stamp);
    let links = pass(tags, batch, Phase::TaskTags, stamp);
    let tasks = pass(links, batch, Phase::Tasks, stamp);
    let once = pass(tasks, batch, Phase::Deletions, stamp);
    lemma_pass_wf(start, batch, Phase::Lists, stamp);
    lemma_pass_wf(lists, batch, Phase::Tags, stamp);
    lemma_pass_wf(tags, batch, Phase::TaskTags, stamp);
    lemma_pass_wf(links, batch, Phase::Tasks, stamp);
    lemma_lists_pass(start, batch, stamp);
    lemma_tags_pass(lists, batch, stamp);
    lemma_links_pass(tags, batch, stamp);
    lemma_tasks_pass(links, batch, stamp);
    lemma_deletions_pass(tasks, batch, stamp);
    let after = once.store;
    assert forall|i: int|
        0 <= i < batch.len() && phase_of(#[trigger] batch[i]) == Phase::Lists implies loses(
        after,
        batch[i],
    ) by {
        assert(row_present(after, batch[i]));
        assert(loses(lists.store, batch[i]));
        if let SyncRecordView::List(list) = batch[i] {
            assert(holds(after.lists, list.id));
            assert(lookup(after.lists, list.id) == lookup(lists.store.lists, list.id));
        }
    }
    assert forall|i: int|
        0 <= i < batch.len() && phase_of(#[trigger] batch[i]) == Phase::Tasks implies loses(
        after,
        batch[i],
    ) by {
        assert(row_present(after, batch[i]));
        assert(loses(tasks.store, batch[i]));
        if let SyncRecordView::Task(task) = batch[i] {
            assert(holds(after.tasks, task.id));
            assert(lookup(after.tasks, task.id) == lookup(tasks.store.tasks, task.id));
        }
    }
}

/// Idempotence, the conflicts. Applying a batch a second time reports the id of every change
/// to a list or a task as a conflict: first those of the lists, then those of the tasks, each
/// in the order of the batch. So whatever the first application accepted, the second
/// reports. This holds where no deletion of the batch removed a list or a task that the batch
/// also changes, which [`rows_kept`] says, whatever the stamps of the two applications.
pub proof fn law_second_application_reports_every_change(
    s: DatabaseView,
    batch: Seq<SyncRecordView>,
    stamp: Seq<char>,
    second_stamp: Seq<char>,
)
    requires
        s.wf(),
        all_valid(batch),
        rows_kept(merged(s, batch, stamp).store, batch),
    ensures
        ({
            let once = merged(s, batch, stamp);
            let twice = merged(once.store, batch, second_stamp);
            &&& twice.conflicts == ids_in(batch, Phase::Lists) + ids_in(batch, Phase::Tasks)
            &&& forall|i: int|
                0 <= i < batch.len() ==> match #[trigger] batch[i] {
                    SyncRecordView::List(list) => twice.conflicts.contains(list.id),
                    SyncRecordView::Task(task) => twice.conflicts.contains(task.id),
                    _ => true,
                }
        }),
{
    let after = merged(s, batch, stamp).store;
    lemma_changes_lose_afterwards(s, batch, stamp);
    lemma_merged_wf(s, batch, stamp);
    let again = Outcome { store: after, conflicts: Seq::empty() };
    lemma_lists_pass_again(again, batch, second_stamp);
    let lists2 = pass(again, batch, Phase::Lists, second_stamp);
    lemma_tags_pass(lists2, batch, second_stamp);
    let tags2 = pass(lists2, batch, Phase::Tags, second_stamp);
    lemma_links_pass(tags2, batch, second_stamp);
    let links2 = pass(tags2, batch, Phase::TaskTags, second_stamp);
    assert(links2.store.tasks == after.tasks);
    assert forall|i: int|
        0 <= i < batch.len() && phase_of(#[trigger] batch[i]) == Phase::Tasks implies loses(
        links2.store,
        batch[i],
    ) by {
        assert(loses(after, batch[i]));
    }
    lemma_tasks_pass_again(links2, batch, second_stamp);
    let tasks2 = pass(links2, batch, Phase::Tasks, second_stamp);
    lemma_pass_wf(again, batch, Phase::Lists, second_stamp);
    lemma_pass_wf(lists2, batch, Phase::Tags, second_stamp);
    lemma_pass_wf(tags2, batch, Phase::TaskTags, second_stamp);
    lemma_pass_wf(links2, batch, Phase::Tasks, second_stamp);
    lemma_deletions_pass(tasks2, batch, second_stamp);
    let twice = pass(tasks2, batch, Phase::Deletions, second_stamp);
    assert(twice == merged(after, batch, second_stamp));
    assert(twice.conflicts =~= ids_in(batch, Phase::Lists) + ids_in(batch, Phase::Tasks));
    assert forall|i: int| 0 <= i < batch.len() implies match #[trigger] batch[i] {
        SyncRecordView::List(list) => twice.conflicts.contains(list.id),
        SyncRecordView::Task(task) => twice.conflicts.contains(task.id),
        _ => true,
    } by {
        lemma_ids_in(batch, i);
        match batch[i] {
            SyncRecordView::List(list) => {
                crate::table::lemma_joined_contains(
                    ids_in(batch, Phase::Lists),
                    ids_in(batch, Phase::Tasks),
                    list.id,
                );
            },
            SyncRecordView::Task(task) => {
                crate::table::lemma_joined_contains(
                    ids_in(batch, Phase::Lists),
                    ids_in(batch, Phase::Tasks),
                    task.id,
                );
            },
            _ => {},
        }
    }
}

} // verus!
