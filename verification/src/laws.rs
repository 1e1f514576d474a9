//! What holds of the merge engine and the change extractor, whatever the store and the
//! changes.

use vstd::prelude::*;
use crate::changes::{changes_since, deletion_record, list_record, tag_record, task_record};
use crate::db::{
    link_of, link_stays, list_after, list_stays, list_valid, tag_after, tag_ids_of, tag_stays,
    tag_valid, tagged, task_after, task_row_valid, task_stays, tombstone_after, tombstone_valid,
    DatabaseView, TombstoneView,
};
use crate::merge::{
    all_valid, applied, deleted, list_merged, list_overwritten, membership, merged, pass, phase_of,
    tags_added, tags_replaced, task_merged, task_overwritten, task_rejected, Outcome, Phase,
};
use crate::models::{ListView, RecordType, SyncRecordView, TaskTagLinkView, TaskView};
use crate::table::{
    distinct, holds, lemma_filter_all, lemma_filter_distinct, lemma_filter_keeps,
    lemma_filter_lookup, lemma_filter_map_contains, lemma_filter_none, lemma_filtered,
    lemma_joined_contains, lemma_lookup_at, lemma_lookup_in, lemma_put_all, lemma_put_distinct,
    lemma_put_lookup, lemma_put_twice, lookup, put, put_new, Keyed,
};
use crate::timestamp::{is_after_mark, is_later, is_timestamp, rfc3339_instant};

verus! {

/// Merging a valid change to a list keeps the store well formed.
pub proof fn lemma_list_merged_wf(s: DatabaseView, change: ListView)
    requires
        s.wf(),
        change.valid(),
    ensures
        list_merged(s, change).wf(),
{
    match lookup(s.lists, change.id) {
        Some(stored) => {
            lemma_lookup_in(s.lists, change.id);
            let row = list_overwritten(stored, change);
            lemma_put_distinct(s.lists, row);
            lemma_put_all(s.lists, row, list_valid());
        },
        None => {
            lemma_put_distinct(s.lists, change);
            lemma_put_all(s.lists, change, list_valid());
        },
    }
}

/// Giving a task tags keeps the keys of the memberships distinct.
pub proof fn lemma_tags_added_distinct(
    links: Seq<TaskTagLinkView>,
    task_id: Seq<char>,
    tag_ids: Seq<Seq<char>>,
    stamp: Seq<char>,
)
    requires
        distinct(links),
    ensures
        distinct(tags_added(links, task_id, tag_ids, stamp)),
    decreases tag_ids.len(),
{
    if tag_ids.len() > 0 {
        lemma_tags_added_distinct(links, task_id, tag_ids.drop_last(), stamp);
        lemma_put_distinct(
            tags_added(links, task_id, tag_ids.drop_last(), stamp),
            membership(task_id, tag_ids.last(), stamp),
        );
    }
}

/// Merging a valid change to a task keeps the store well formed.
pub proof fn lemma_task_merged_wf(s: DatabaseView, change: TaskView, stamp: Seq<char>)
    requires
        s.wf(),
        change.valid(),
    ensures
        task_merged(s, change, stamp).wf(),
{
    lemma_filter_distinct(s.task_tags, link_stays(change.id));
    lemma_tags_added_distinct(
        s.task_tags.filter(link_stays(change.id)),
        change.id,
        change.tag_ids,
        stamp,
    );
    match lookup(s.tasks, change.id) {
        Some(stored) => {
            lemma_lookup_in(s.tasks, change.id);
            let row = task_overwritten(stored, change);
            lemma_put_distinct(s.tasks, row);
            lemma_put_all(s.tasks, row, task_row_valid());
        },
        None => {
            lemma_put_distinct(s.tasks, change.row());
            lemma_put_all(s.tasks, change.row(), task_row_valid());
        },
    }
}

/// A deletion at a time that denotes an instant keeps the store well formed.
pub proof fn lemma_deleted_wf(
    s: DatabaseView,
    id: Seq<char>,
    record_type: RecordType,
    deleted_at: Seq<char>,
)
    requires
        s.wf(),
        is_timestamp(deleted_at),
    ensures
        deleted(s, id, record_type, deleted_at).wf(),
{
    let tombstone = TombstoneView { id, record_type, deleted_at };
    lemma_put_distinct(s.tombstones, tombstone);
    lemma_put_all(s.tombstones, tombstone, tombstone_valid());
    match record_type {
        RecordType::Task => {
            lemma_filter_distinct(s.tasks, task_stays(id));
            lemma_filter_keeps(s.tasks, task_stays(id), task_row_valid());
        },
        RecordType::List => {
            lemma_filter_distinct(s.lists, list_stays(id));
            lemma_filter_keeps(s.lists, list_stays(id), list_valid());
        },
        RecordType::Tag => {
            lemma_filter_distinct(s.tags, tag_stays(id));
            lemma_filter_keeps(s.tags, tag_stays(id), tag_valid());
        },
        RecordType::TaskTag => {
            lemma_filter_distinct(s.task_tags, link_stays(id));
        },
    }
}

/// Applying a valid record keeps the store well formed.
pub proof fn lemma_applied_wf(o: Outcome, record: SyncRecordView, stamp: Seq<char>)
    requires
        o.store.wf(),
        record.valid(),
    ensures
        applied(o, record, stamp).store.wf(),
{
    match record {
        SyncRecordView::List(list) => lemma_list_merged_wf(o.store, list),
        SyncRecordView::Tag(tag) => {
            lemma_put_distinct(o.store.tags, tag);
            lemma_put_all(o.store.tags, tag, tag_valid());
        },
        SyncRecordView::TaskTag(link) => {
            lemma_put_distinct(o.store.task_tags, link);
        },
        SyncRecordView::Task(task) => lemma_task_merged_wf(o.store, task, stamp),
        SyncRecordView::Deleted { id, record_type, deleted_at } => lemma_deleted_wf(
            o.store,
            id,
            record_type,
            deleted_at,
        ),
    }
}

/// Applying one turn of a batch of valid records keeps the store well formed.
pub proof fn lemma_pass_wf(o: Outcome, batch: Seq<SyncRecordView>, phase: Phase, stamp: Seq<char>)
    requires
        o.store.wf(),
        all_valid(batch),
    ensures
        pass(o, batch, phase, stamp).store.wf(),
    decreases batch.len(),
{
    if batch.len() > 0 {
        let front = batch.drop_last();
        assert forall|i: int| 0 <= i < front.len() implies (#[trigger] front[i]).valid() by {
            assert(batch[i].valid());
        }
        lemma_pass_wf(o, front, phase, stamp);
        assert(batch[batch.len() - 1].valid());
        if phase_of(batch.last()) == phase {
            lemma_applied_wf(pass(o, front, phase, stamp), batch.last(), stamp);
        }
    }
}

/// Merging a batch of valid records keeps the store well formed.
pub proof fn lemma_merged_wf(s: DatabaseView, batch: Seq<SyncRecordView>, stamp: Seq<char>)
    requires
        s.wf(),
        all_valid(batch),
    ensures
        merged(s, batch, stamp).store.wf(),
{
    let start = Outcome { store: s, conflicts: Seq::empty() };
    let lists = pass(start, batch, Phase::Lists, stamp);
    lemma_pass_wf(start, batch, Phase::Lists, stamp);
    let tags = pass(lists, batch, Phase::Tags, stamp);
    lemma_pass_wf(lists, batch, Phase::Tags, stamp);
    let links = pass(tags, batch, Phase::TaskTags, stamp);
    lemma_pass_wf(tags, batch, Phase::TaskTags, stamp);
    let tasks = pass(links, batch, Phase::Tasks, stamp);
    lemma_pass_wf(links, batch, Phase::Tasks, stamp);
    lemma_pass_wf(tasks, batch, Phase::Deletions, stamp);
}

/// Last writer wins, for lists. Two changes to one list that differ in their instant leave
/// the same store in whichever order they come, where the store holds the list already or
/// the two agree on what a later change cannot alter: the time of creation and the inbox
/// flag.
pub proof fn law_list_changes_commute(s: DatabaseView, a: ListView, b: ListView)
    requires
        s.wf(),
        a.valid(),
        b.valid(),
        a.id == b.id,
        rfc3339_instant(a.updated_at) != rfc3339_instant(b.updated_at),
        holds(s.lists, a.id) || (a.created_at == b.created_at && a.is_inbox == b.is_inbox),
    ensures
        list_merged(list_merged(s, a), b) == list_merged(list_merged(s, b), a),
{
    match lookup(s.lists, a.id) {
        Some(stored) => {
            lemma_lookup_in(s.lists, a.id);
            let over_a = list_overwritten(stored, a);
            let over_b = list_overwritten(stored, b);
            lemma_put_lookup(s.lists, over_a);
            lemma_put_lookup(s.lists, over_b);
            lemma_put_twice(s.lists, over_a, over_b);
            lemma_put_twice(s.lists, over_b, over_a);
            assert(list_overwritten(over_a, b) == over_b);
            assert(list_overwritten(over_b, a) == over_a);
        },
        None => {
            lemma_put_lookup(s.lists, a);
            lemma_put_lookup(s.lists, b);
            lemma_put_twice(s.lists, a, list_overwritten(a, b));
            lemma_put_twice(s.lists, b, list_overwritten(b, a));
            assert(list_overwritten(a, b) == b);
            assert(list_overwritten(b, a) == a);
        },
    }
}

/// Last writer wins, for lists. Of two changes to one list the later one is what the store
/// holds after both, in whichever order they come, unless the store held a row that is not
/// earlier than it; that row then stays. The later change never alters the id, the time of
/// creation and the inbox flag of the row that it writes over.
pub proof fn law_later_list_wins(s: DatabaseView, earlier: ListView, later: ListView)
    requires
        s.wf(),
        earlier.valid(),
        later.valid(),
        earlier.id == later.id,
        is_later(later.updated_at, earlier.updated_at),
    ensures
        ({
            let one = lookup(list_merged(list_merged(s, earlier), later).lists, later.id);
            let other = lookup(list_merged(list_merged(s, later), earlier).lists, later.id);
            match lookup(s.lists, later.id) {
                Some(stored) => if is_later(later.updated_at, stored.updated_at) {
                    one == Some(list_overwritten(stored, later)) && other == one
                } else {
                    one == Some(stored) && other == one
                },
                None => one == Some(list_overwritten(earlier, later)) && other == Some(later),
            }
        }),
{
    match lookup(s.lists, later.id) {
        Some(stored) => {
            lemma_lookup_in(s.lists, later.id);
            let over_a = list_overwritten(stored, earlier);
            let over_b = list_overwritten(stored, later);
            lemma_put_lookup(s.lists, over_a);
            lemma_put_lookup(s.lists, over_b);
            lemma_put_twice(s.lists, over_a, over_b);
            lemma_put_twice(s.lists, over_b, over_a);
            assert(list_overwritten(over_a, later) == over_b);
        },
        None => {
            lemma_put_lookup(s.lists, earlier);
            lemma_put_lookup(s.lists, later);
            lemma_put_twice(s.lists, earlier, list_overwritten(earlier, later));
            lemma_put_lookup(s.lists, list_overwritten(earlier, later));
        },
    }
}

/// The memberships of other tasks are what they were before a task was given tags.
pub proof fn lemma_tags_added_cleared(
    links: Seq<TaskTagLinkView>,
    task_id: Seq<char>,
    tag_ids: Seq<Seq<char>>,
    stamp: Seq<char>,
)
    ensures
        tags_added(links, task_id, tag_ids, stamp).filter(link_stays(task_id)) == links.filter(
            link_stays(task_id),
        ),
    decreases tag_ids.len(),
{
    if tag_ids.len() > 0 {
        let before = tags_added(links, task_id, tag_ids.drop_last(), stamp);
        lemma_tags_added_cleared(links, task_id, tag_ids.drop_last(), stamp);
        before.lemma_filter_push(membership(task_id, tag_ids.last(), stamp), link_stays(task_id));
    }
}

/// Replacing the tags of a task twice leaves what the second replacement gives.
pub proof fn lemma_tags_replaced_twice(
    links: Seq<TaskTagLinkView>,
    task_id: Seq<char>,
    first: Seq<Seq<char>>,
    second: Seq<Seq<char>>,
    stamp: Seq<char>,
)
    ensures
        tags_replaced(tags_replaced(links, task_id, first, stamp), task_id, second, stamp)
            == tags_replaced(links, task_id, second, stamp),
{
    let cleared = links.filter(link_stays(task_id));
    lemma_tags_added_cleared(cleared, task_id, first, stamp);
    lemma_filtered(links, link_stays(task_id));
    lemma_filter_all(cleared, link_stays(task_id));
}

/// Last writer wins, for tasks. Two changes to one task that differ in their instant leave
/// the same store in whichever order they come, where the memberships are stamped alike and
/// the store holds the task already or the two agree on the time of creation, which a later
/// change cannot alter.
pub proof fn law_task_changes_commute(s: DatabaseView, a: TaskView, b: TaskView, stamp: Seq<char>)
    requires
        s.wf(),
        a.valid(),
        b.valid(),
        a.id == b.id,
        rfc3339_instant(a.updated_at) != rfc3339_instant(b.updated_at),
        holds(s.tasks, a.id) || a.created_at == b.created_at,
    ensures
        task_merged(task_merged(s, a, stamp), b, stamp) == task_merged(
            task_merged(s, b, stamp),
            a,
            stamp,
        ),
{
    lemma_tags_replaced_twice(s.task_tags, a.id, a.tag_ids, b.tag_ids, stamp);
    lemma_tags_replaced_twice(s.task_tags, a.id, b.tag_ids, a.tag_ids, stamp);
    match lookup(s.tasks, a.id) {
        Some(stored) => {
            lemma_lookup_in(s.tasks, a.id);
            let over_a = task_overwritten(stored, a);
            let over_b = task_overwritten(stored, b);
            lemma_put_lookup(s.tasks, over_a);
            lemma_put_lookup(s.tasks, over_b);
            lemma_put_twice(s.tasks, over_a, over_b);
            lemma_put_twice(s.tasks, over_b, over_a);
            assert(task_overwritten(over_a, b) == over_b);
            assert(task_overwritten(over_b, a) == over_a);
        },
        None => {
            lemma_put_lookup(s.tasks, a.row());
            lemma_put_lookup(s.tasks, b.row());
            lemma_put_twice(s.tasks, a.row(), task_overwritten(a.row(), b));
            lemma_put_twice(s.tasks, b.row(), task_overwritten(b.row(), a));
            assert(task_overwritten(a.row(), b) == b.row());
            assert(task_overwritten(b.row(), a) == a.row());
        },
    }
}

/// Last writer wins, for tasks. Of two changes to one task the later one is what the store
/// holds after both, row and tags, in whichever order they come, unless the store held a row
/// that is not earlier than it; that row then stays. The later change never alters the id and
/// the time of creation of the row that it writes over.
pub proof fn law_later_task_wins(
    s: DatabaseView,
    earlier: TaskView,
    later: TaskView,
    stamp: Seq<char>,
)
    requires
        s.wf(),
        earlier.valid(),
        later.valid(),
        earlier.id == later.id,
        is_later(later.updated_at, earlier.updated_at),
    ensures
        ({
            let one = task_merged(task_merged(s, earlier, stamp), later, stamp);
            let other = task_merged(task_merged(s, later, stamp), earlier, stamp);
            match lookup(s.tasks, later.id) {
                Some(stored) => if is_later(later.updated_at, stored.updated_at) {
                    &&& lookup(one.tasks, later.id) == Some(task_overwritten(stored, later))
                    &&& lookup(other.tasks, later.id) == Some(task_overwritten(stored, later))
                    &&& one.task_tags == tags_replaced(s.task_tags, later.id, later.tag_ids, stamp)
                    &&& other.task_tags == one.task_tags
                } else {
                    one == s && other == s
                },
                None => {
                    &&& lookup(one.tasks, later.id) == Some(task_overwritten(earlier.row(), later))
                    &&& lookup(other.tasks, later.id) == Some(later.row())
                    &&& one.task_tags == tags_replaced(s.task_tags, later.id, later.tag_ids, stamp)
                    &&& other.task_tags == one.task_tags
                },
            }
        }),
{
    lemma_tags_replaced_twice(s.task_tags, later.id, earlier.tag_ids, later.tag_ids, stamp);
    match lookup(s.tasks, later.id) {
        Some(stored) => {
            lemma_lookup_in(s.tasks, later.id);
            let over_a = task_overwritten(stored, earlier);
            let over_b = task_overwritten(stored, later);
            lemma_put_lookup(s.tasks, over_a);
            lemma_put_lookup(s.tasks, over_b);
            lemma_put_twice(s.tasks, over_a, over_b);
            assert(task_overwritten(over_a, later) == over_b);
        },
        None => {
            lemma_put_lookup(s.tasks, earlier.row());
            lemma_put_lookup(s.tasks, later.row());
            lemma_put_twice(s.tasks, earlier.row(), task_overwritten(earlier.row(), later));
            lemma_put_lookup(s.tasks, task_overwritten(earlier.row(), later));
        },
    }
}

/// The record tells of a row of the store that is after the watermark: a list, a tag, a task
/// with the tags that it carries, or a tombstone. Memberships are told with their tasks only.
pub open spec fn listed(s: DatabaseView, mark: Option<(i64, u32)>, record: SyncRecordView) -> bool {
    match record {
        SyncRecordView::List(list) => s.lists.contains(list) && is_after_mark(
            list.updated_at,
            mark,
        ),
        SyncRecordView::Tag(tag) => s.tags.contains(tag) && is_after_mark(tag.created_at, mark),
        SyncRecordView::Task(task) => exists|i: int|
            0 <= i < s.tasks.len() && is_after_mark((#[trigger] s.tasks[i]).updated_at, mark)
                && task == s.tasks[i].with_tags(tag_ids_of(s.task_tags, s.tasks[i].id)),
        SyncRecordView::TaskTag(link) => false,
        SyncRecordView::Deleted { id, record_type, deleted_at } => s.tombstones.contains(
            TombstoneView { id, record_type, deleted_at },
        ) && is_after_mark(deleted_at, mark),
    }
}

/// The changes since a watermark hold a record exactly if it tells of a row of the store that
/// is after the watermark.
pub proof fn law_changes_are_the_rows_after(
    s: DatabaseView,
    mark: Option<(i64, u32)>,
    record: SyncRecordView,
)
    ensures
        changes_since(s, mark).contains(record) <==> listed(s, mark, record),
{
    let lists = s.lists.filter(list_after(mark)).map_values(list_record());
    let tags = s.tags.filter(tag_after(mark)).map_values(tag_record());
    let tasks = s.tasks.filter(task_after(mark)).map_values(tagged(s.task_tags)).map_values(
        task_record(),
    );
    let tombstones = s.tombstones.filter(tombstone_after(mark)).map_values(deletion_record());
    lemma_joined_contains(lists + tags + tasks, tombstones, record);
    lemma_joined_contains(lists + tags, tasks, record);
    lemma_joined_contains(lists, tags, record);
    lemma_filter_map_contains(s.lists, list_after(mark), list_record(), record);
    lemma_filter_map_contains(s.tags, tag_after(mark), tag_record(), record);
    lemma_filter_map_contains(s.tombstones, tombstone_after(mark), deletion_record(), record);
    let both = |task: TaskView| task_record()(tagged(s.task_tags)(task));
    assert(s.tasks.filter(task_after(mark)).map_values(both) =~= tasks);
    lemma_filter_map_contains(s.tasks, task_after(mark), both, record);
    match record {
        SyncRecordView::List(list) => {
            if s.lists.contains(list) && is_after_mark(list.updated_at, mark) {
                let i = choose|i: int| 0 <= i < s.lists.len() && s.lists[i] == list;
                assert(list_after(mark)(s.lists[i]) && list_record()(s.lists[i]) == record);
            }
        },
        SyncRecordView::Tag(tag) => {
            if s.tags.contains(tag) && is_after_mark(tag.created_at, mark) {
                let i = choose|i: int| 0 <= i < s.tags.len() && s.tags[i] == tag;
                assert(tag_after(mark)(s.tags[i]) && tag_record()(s.tags[i]) == record);
            }
        },
        SyncRecordView::Task(task) => {
            if listed(s, mark, record) {
                let i = choose|i: int|
                    0 <= i < s.tasks.len() && is_after_mark(
                        (#[trigger] s.tasks[i]).updated_at,
                        mark,
                    ) && task == s.tasks[i].with_tags(tag_ids_of(s.task_tags, s.tasks[i].id));
                assert(task_after(mark)(s.tasks[i]) && both(s.tasks[i]) == record);
            }
        },
        SyncRecordView::TaskTag(link) => {},
        SyncRecordView::Deleted { id, record_type, deleted_at } => {
            let tombstone = TombstoneView { id, record_type, deleted_at };
            if s.tombstones.contains(tombstone) && is_after_mark(deleted_at, mark) {
                let i = choose|i: int| 0 <= i < s.tombstones.len() && s.tombstones[i] == tombstone;
                assert(tombstone_after(mark)(s.tombstones[i]) && deletion_record()(s.tombstones[i])
                    == record);
            }
        },
    }
}

/// Full resync. With no watermark the changes are the whole store: every list, every tag,
/// every task with the tags that it carries, and every tombstone, in this order.
pub proof fn law_full_resync(s: DatabaseView)
    ensures
        changes_since(s, None) == s.lists.map_values(list_record()) + s.tags.map_values(
            tag_record(),
        ) + s.tasks.map_values(tagged(s.task_tags)).map_values(task_record())
            + s.tombstones.map_values(deletion_record()),
{
    lemma_filter_all(s.lists, list_after(None));
    lemma_filter_all(s.tags, tag_after(None));
    lemma_filter_all(s.tasks, task_after(None));
    lemma_filter_all(s.tombstones, tombstone_after(None));
}

/// Tombstones are kept. A tombstone that the store holds for a record is there after any
/// further record is applied, though a later deletion of the same record may have written a
/// new time into it.
pub proof fn law_tombstones_are_kept(
    o: Outcome,
    record: SyncRecordView,
    stamp: Seq<char>,
    key: (Seq<char>, RecordType),
)
    requires
        o.store.wf(),
        holds(o.store.tombstones, key),
    ensures
        holds(applied(o, record, stamp).store.tombstones, key),
{
    match record {
        SyncRecordView::Deleted { id, record_type, deleted_at } => {
            lemma_put_lookup(o.store.tombstones, TombstoneView { id, record_type, deleted_at });
        },
        _ => {},
    }
}

/// Tombstones are never pruned. A tombstone that the store holds for a record is there after
/// any batch is merged.
pub proof fn law_tombstones_outlive_batches(
    s: DatabaseView,
    batch: Seq<SyncRecordView>,
    stamp: Seq<char>,
    key: (Seq<char>, RecordType),
)
    requires
        s.wf(),
        all_valid(batch),
        holds(s.tombstones, key),
    ensures
        holds(merged(s, batch, stamp).store.tombstones, key),
{
    let start = Outcome { store: s, conflicts: Seq::empty() };
    let lists = pass(start, batch, Phase::Lists, stamp);
    let tags = pass(lists, batch, Phase::Tags, stamp);
    let links = pass(tags, batch, Phase::TaskTags, stamp);
    let tasks = pass(links, batch, Phase::Tasks, stamp);
    lemma_pass_keeps_tombstones(start, batch, Phase::Lists, stamp, key);
    lemma_pass_keeps_tombstones(lists, batch, Phase::Tags, stamp, key);
    lemma_pass_keeps_tombstones(tags, batch, Phase::TaskTags, stamp, key);
    lemma_pass_keeps_tombstones(links, batch, Phase::Tasks, stamp, key);
    lemma_pass_keeps_tombstones(tasks, batch, Phase::Deletions, stamp, key);
}

/// One turn of a batch keeps the tombstones that the store holds.
pub proof fn lemma_pass_keeps_tombstones(
    o: Outcome,
    batch: Seq<SyncRecordView>,
    phase: Phase,
    stamp: Seq<char>,
    key: (Seq<char>, RecordType),
)
    requires
        o.store.wf(),
        all_valid(batch),
        holds(o.store.tombstones, key),
    ensures
        pass(o, batch, phase, stamp).store.wf(),
        holds(pass(o, batch, phase, stamp).store.tombstones, key),
    decreases batch.len(),
{
    lemma_pass_wf(o, batch, phase, stamp);
    if batch.len() > 0 {
        let front = batch.drop_last();
        assert forall|i: int| 0 <= i < front.len() implies (#[trigger] front[i]).valid() by {
            assert(batch[i].valid());
        }
        lemma_pass_keeps_tombstones(o, front, phase, stamp, key);
        if phase_of(batch.last()) == phase {
            law_tombstones_are_kept(pass(o, front, phase, stamp), batch.last(), stamp, key);
        }
    }
}

/// Tombstone propagation. After the record `id` of a kind was deleted at `deleted_at`, the
/// changes since a watermark hold the deletion exactly if `deleted_at` is later than the
/// watermark, and with no watermark they hold it. Where they do not hold it, they hold no
/// deletion of that record at all.
pub proof fn law_tombstone_propagates(
    s: DatabaseView,
    id: Seq<char>,
    record_type: RecordType,
    deleted_at: Seq<char>,
    mark: Option<(i64, u32)>,
)
    requires
        s.wf(),
        is_timestamp(deleted_at),
    ensures
        ({
            let changes = changes_since(deleted(s, id, record_type, deleted_at), mark);
            &&& is_after_mark(deleted_at, mark) <==> changes.contains(
                SyncRecordView::Deleted { id, record_type, deleted_at },
            )
            &&& !is_after_mark(deleted_at, mark) ==> forall|at: Seq<char>|
                !(#[trigger] changes.contains(
                    SyncRecordView::Deleted { id, record_type, deleted_at: at },
                ))
        }),
{
    let after = deleted(s, id, record_type, deleted_at);
    let changes = changes_since(after, mark);
    let tombstone = TombstoneView { id, record_type, deleted_at };
    lemma_put_lookup(s.tombstones, tombstone);
    assert(after.tombstones == put(s.tombstones, tombstone));
    lemma_lookup_in(after.tombstones, tombstone.key());
    law_changes_are_the_rows_after(
        after,
        mark,
        SyncRecordView::Deleted { id, record_type, deleted_at },
    );
    assert forall|at: Seq<char>| !is_after_mark(deleted_at, mark) implies !(
    #[trigger] changes.contains(SyncRecordView::Deleted { id, record_type, deleted_at: at })) by {
        let other = TombstoneView { id, record_type, deleted_at: at };
        law_changes_are_the_rows_after(
            after,
            mark,
            SyncRecordView::Deleted { id, record_type, deleted_at: at },
        );
        if after.tombstones.contains(other) {
            let i = choose|i: int| 0 <= i < after.tombstones.len() && after.tombstones[i] == other;
            lemma_lookup_at(after.tombstones, i);
        }
    }
}

/// Inbox protection. Deleting a list that is an inbox leaves the list in the store as it was,
/// and still writes the tombstone, so the changes since any earlier watermark hold the
/// deletion.
pub proof fn law_inbox_survives(
    s: DatabaseView,
    id: Seq<char>,
    deleted_at: Seq<char>,
    mark: Option<(i64, u32)>,
)
    requires
        s.wf(),
        is_timestamp(deleted_at),
        lookup(s.lists, id) is Some,
        lookup(s.lists, id)->0.is_inbox,
    ensures
        ({
            let after = deleted(s, id, RecordType::List, deleted_at);
            &&& after.lists == s.lists
            &&& lookup(after.lists, id) == lookup(s.lists, id)
            &&& lookup(after.tombstones, (id, RecordType::List)) == Some(
                TombstoneView { id, record_type: RecordType::List, deleted_at },
            )
            &&& is_after_mark(deleted_at, mark) ==> changes_since(after, mark).contains(
                SyncRecordView::Deleted { id, record_type: RecordType::List, deleted_at },
            )
        }),
{
    lemma_lookup_in(s.lists, id);
    let at = choose|i: int| 0 <= i < s.lists.len() && #[trigger] s.lists[i] == lookup(s.lists, id)->0;
    assert forall|j: int| 0 <= j < s.lists.len() implies list_stays(id)(#[trigger] s.lists[j]) by {
        if j != at && s.lists[j].id == id {
            lemma_lookup_at(s.lists, j);
        }
    }
    lemma_filter_all(s.lists, list_stays(id));
    lemma_put_lookup(
        s.tombstones,
        TombstoneView { id, record_type: RecordType::List, deleted_at },
    );
    law_tombstone_propagates(s, id, RecordType::List, deleted_at, mark);
}

/// Nothing leaves without a tombstone. After a deletion the store holds the tombstone of the
/// record with the time of the deletion, and the record is gone: a list that is no inbox, a
/// tag, the row of a task, or the memberships of a task.
pub proof fn law_deleted_is_gone(
    s: DatabaseView,
    id: Seq<char>,
    record_type: RecordType,
    deleted_at: Seq<char>,
)
    requires
        s.wf(),
    ensures
        lookup(deleted(s, id, record_type, deleted_at).tombstones, (id, record_type)) == Some(
            TombstoneView { id, record_type, deleted_at },
        ),
        ({
            let after = deleted(s, id, record_type, deleted_at);
            match record_type {
                RecordType::List => lookup(after.lists, id) == match lookup(s.lists, id) {
                    Some(list) => if list.is_inbox {
                        Some(list)
                    } else {
                        None
                    },
                    None => None,
                },
                RecordType::Tag => lookup(after.tags, id) is None,
                RecordType::Task => lookup(after.tasks, id) is None,
                RecordType::TaskTag => tag_ids_of(after.task_tags, id) == Seq::<Seq<char>>::empty(),
            }
        }),
{
    lemma_put_lookup(s.tombstones, TombstoneView { id, record_type, deleted_at });
    match record_type {
        RecordType::List => {
            lemma_filter_lookup(s.lists, list_stays(id), id);
            if lookup(s.lists, id) is Some {
                lemma_lookup_in(s.lists, id);
            }
        },
        RecordType::Tag => {
            lemma_filter_lookup(s.tags, tag_stays(id), id);
            if lookup(s.tags, id) is Some {
                lemma_lookup_in(s.tags, id);
            }
        },
        RecordType::Task => {
            lemma_filter_lookup(s.tasks, task_stays(id), id);
            if lookup(s.tasks, id) is Some {
                lemma_lookup_in(s.tasks, id);
            }
        },
        RecordType::TaskTag => {
            lemma_no_tags_left(s.task_tags, id);
        },
    }
}

/// A task whose memberships were removed carries no tag.
pub proof fn lemma_no_tags_left(links: Seq<TaskTagLinkView>, task_id: Seq<char>)
    ensures
        tag_ids_of(links.filter(link_stays(task_id)), task_id) == Seq::<Seq<char>>::empty(),
{
    let rest = links.filter(link_stays(task_id));
    lemma_filtered(links, link_stays(task_id));
    assert forall|j: int| 0 <= j < rest.len() implies !link_of(task_id)(#[trigger] rest[j]) by {
        assert(link_stays(task_id)(rest[j]));
    }
    lemma_filter_none(rest, link_of(task_id));
    assert(tag_ids_of(rest, task_id) =~= Seq::<Seq<char>>::empty());
}

/// Tag-set replace. A change to a task that names no tags and does not lose leaves the task
/// without any membership: the task carries no tag afterwards.
pub proof fn law_empty_tag_set_clears(s: DatabaseView, change: TaskView, stamp: Seq<char>)
    requires
        s.wf(),
        change.valid(),
        change.tag_ids.len() == 0,
        !task_rejected(s, change),
    ensures
        tag_ids_of(task_merged(s, change, stamp).task_tags, change.id) == Seq::<
            Seq<char>,
        >::empty(),
        forall|tag_id: Seq<char>|
            !(#[trigger] holds(task_merged(s, change, stamp).task_tags, (change.id, tag_id))),
        task_merged(s, change, stamp).task(change.id) is Some,
        task_merged(s, change, stamp).task(change.id)->0.tag_ids.len() == 0,
{
    let after = task_merged(s, change, stamp);
    assert(after.task_tags == s.task_tags.filter(link_stays(change.id)));
    lemma_no_tags_left(s.task_tags, change.id);
    lemma_filtered(s.task_tags, link_stays(change.id));
    assert forall|tag_id: Seq<char>| !(#[trigger] holds(after.task_tags, (change.id, tag_id))) by {
        if holds(after.task_tags, (change.id, tag_id)) {
            let j = choose|j: int|
                0 <= j < after.task_tags.len() && #[trigger] after.task_tags[j].key() == (
                    change.id,
                    tag_id,
                );
            assert(link_stays(change.id)(after.task_tags[j]));
        }
    }
    match lookup(s.tasks, change.id) {
        Some(stored) => {
            lemma_lookup_in(s.tasks, change.id);
            lemma_put_lookup(s.tasks, task_overwritten(stored, change));
        },
        None => {
            lemma_put_lookup(s.tasks, change.row());
        },
    }
}

/// Giving a task tags makes it carry each of them, and changes no other membership: those
/// that were held stay, whatever the task, and nothing else is added.
pub proof fn lemma_tags_added_holds(
    links: Seq<TaskTagLinkView>,
    task_id: Seq<char>,
    tag_ids: Seq<Seq<char>>,
    stamp: Seq<char>,
    key: (Seq<char>, Seq<char>),
)
    requires
        distinct(links),
    ensures
        distinct(tags_added(links, task_id, tag_ids, stamp)),
        holds(tags_added(links, task_id, tag_ids, stamp), key) <==> holds(links, key) || (key.0
            == task_id && tag_ids.contains(key.1)),
    decreases tag_ids.len(),
{
    if tag_ids.len() > 0 {
        let front = tag_ids.drop_last();
        let before = tags_added(links, task_id, front, stamp);
        let link = membership(task_id, tag_ids.last(), stamp);
        lemma_tags_added_holds(links, task_id, front, stamp, key);
        lemma_put_distinct(before, link);
        if holds(before, link.key()) {
        } else {
            lemma_put_lookup(before, link);
            assert(put_new(before, link) == put(before, link));
        }
        if front.contains(key.1) {
            let j = choose|j: int| 0 <= j < front.len() && front[j] == key.1;
            assert(tag_ids[j] == key.1);
        }
        if tag_ids.contains(key.1) && tag_ids.last() != key.1 {
            let j = choose|j: int| 0 <= j < tag_ids.len() && tag_ids[j] == key.1;
            assert(front[j] == key.1);
        }
        if tag_ids.last() == key.1 {
            assert(tag_ids[tag_ids.len() - 1] == key.1);
        }
    }
}

/// Tag-set replace, in general. After a change to a task that does not lose, the task carries
/// exactly the tags that the change names, and the memberships of every other task are what
/// they were.
pub proof fn law_task_tags_are_replaced(
    s: DatabaseView,
    change: TaskView,
    stamp: Seq<char>,
    key: (Seq<char>, Seq<char>),
)
    requires
        s.wf(),
        change.valid(),
        !task_rejected(s, change),
    ensures
        holds(task_merged(s, change, stamp).task_tags, key) <==> if key.0 == change.id {
            change.tag_ids.contains(key.1)
        } else {
            holds(s.task_tags, key)
        },
{
    let cleared = s.task_tags.filter(link_stays(change.id));
    lemma_filter_distinct(s.task_tags, link_stays(change.id));
    lemma_filtered(s.task_tags, link_stays(change.id));
    lemma_tags_added_holds(cleared, change.id, change.tag_ids, stamp, key);
    lemma_filter_lookup(s.task_tags, link_stays(change.id), key);
    if holds(cleared, key) {
        let j = choose|j: int| 0 <= j < cleared.len() && #[trigger] cleared[j].key() == key;
        assert(link_stays(change.id)(cleared[j]));
    }
    if holds(s.task_tags, key) && key.0 != change.id {
        lemma_lookup_in(s.task_tags, key);
    }
}

} // verus!
