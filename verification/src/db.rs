//! The entity store: six tables of rows, each row found by its key.
//!
//! Lists, tags and tasks are keyed by their id, a membership by task and tag, a tombstone by
//! id and kind of record, a device's watermark by the device. The tasks table holds no tag
//! ids: which tags a task carries is what the memberships say.

use vstd::prelude::*;
use crate::models::{
    views, List, ListView, RecordType, Tag, TagView, Task, TaskTagLink, TaskTagLinkView,
    TaskView,
};
use crate::table::{
    all_rows, distinct, holds, lemma_absent, lemma_filter_all, lemma_filter_distinct,
    lemma_lookup_at, lemma_push_is_put, lemma_remove_is_filter, lemma_update_is_put, lookup, put,
    put_new, Keyed,
};
use crate::text::{all_chars, same_text};
use crate::timestamp::{after_mark, denotes_instant, is_after_mark, is_timestamp};

verus! {

/// The durable mark that an entity was deleted.
#[derive(Debug)]
pub struct Tombstone {
    pub id: String,
    pub record_type: RecordType,
    pub deleted_at: String,
}

/// What a [`Tombstone`] holds.
pub struct TombstoneView {
    pub id: Seq<char>,
    pub record_type: RecordType,
    pub deleted_at: Seq<char>,
}

impl View for Tombstone {
    type V = TombstoneView;

    open spec fn view(&self) -> TombstoneView {
        TombstoneView { id: self.id@, record_type: self.record_type, deleted_at: self.deleted_at@ }
    }
}

impl Keyed for TombstoneView {
    type Key = (Seq<char>, RecordType);

    open spec fn key(&self) -> (Seq<char>, RecordType) {
        (self.id, self.record_type)
    }
}

impl TombstoneView {
    /// The time of the deletion denotes an instant.
    pub open spec fn valid(self) -> bool {
        is_timestamp(self.deleted_at)
    }
}

impl Tombstone {
    /// Whether the time of the deletion denotes an instant.
    pub fn is_well_formed(&self) -> (r: bool)
        ensures
            r == self@.valid(),
    {
        denotes_instant(self.deleted_at.as_str())
    }
}

impl Clone for Tombstone {
    fn clone(&self) -> (r: Self)
        ensures
            r@ == self@,
    {
        Tombstone {
            id: self.id.clone(),
            record_type: self.record_type,
            deleted_at: self.deleted_at.clone(),
        }
    }
}

/// Up to when a device has synchronised.
#[derive(Debug)]
pub struct DeviceSync {
    pub device_id: String,
    pub last_sync: String,
}

/// What a [`DeviceSync`] holds.
pub struct DeviceSyncView {
    pub device_id: Seq<char>,
    pub last_sync: Seq<char>,
}

impl View for DeviceSync {
    type V = DeviceSyncView;

    open spec fn view(&self) -> DeviceSyncView {
        DeviceSyncView { device_id: self.device_id@, last_sync: self.last_sync@ }
    }
}

impl Clone for DeviceSync {
    fn clone(&self) -> (r: Self)
        ensures
            r@ == self@,
    {
        DeviceSync { device_id: self.device_id.clone(), last_sync: self.last_sync.clone() }
    }
}

impl Keyed for DeviceSyncView {
    type Key = Seq<char>;

    open spec fn key(&self) -> Seq<char> {
        self.device_id
    }
}

/// What a [`Database`] holds: the rows of each table, in the order in which they came.
pub struct DatabaseView {
    pub lists: Seq<ListView>,
    pub tags: Seq<TagView>,
    pub tasks: Seq<TaskView>,
    pub task_tags: Seq<TaskTagLinkView>,
    pub tombstones: Seq<TombstoneView>,
    pub device_sync: Seq<DeviceSyncView>,
}

/// The rows that stay when the list `id` is deleted: all the others, and an inbox.
pub open spec fn list_stays(id: Seq<char>) -> spec_fn(ListView) -> bool {
    |list: ListView| list.id != id || list.is_inbox
}

/// The rows that stay when the tag `id` is deleted.
pub open spec fn tag_stays(id: Seq<char>) -> spec_fn(TagView) -> bool {
    |tag: TagView| tag.id != id
}

/// The rows that stay when the task `id` is deleted.
pub open spec fn task_stays(id: Seq<char>) -> spec_fn(TaskView) -> bool {
    |task: TaskView| task.id != id
}

/// The memberships of other tasks than `task_id`.
pub open spec fn link_stays(task_id: Seq<char>) -> spec_fn(TaskTagLinkView) -> bool {
    |link: TaskTagLinkView| link.task_id != task_id
}

/// The memberships of the task `task_id`.
pub open spec fn link_of(task_id: Seq<char>) -> spec_fn(TaskTagLinkView) -> bool {
    |link: TaskTagLinkView| link.task_id == task_id
}

/// The lists changed after the watermark.
pub open spec fn list_after(mark: Option<(i64, u32)>) -> spec_fn(ListView) -> bool {
    |list: ListView| is_after_mark(list.updated_at, mark)
}

/// The tags created after the watermark.
pub open spec fn tag_after(mark: Option<(i64, u32)>) -> spec_fn(TagView) -> bool {
    |tag: TagView| is_after_mark(tag.created_at, mark)
}

/// The tasks changed after the watermark.
pub open spec fn task_after(mark: Option<(i64, u32)>) -> spec_fn(TaskView) -> bool {
    |task: TaskView| is_after_mark(task.updated_at, mark)
}

/// The tombstones written after the watermark.
pub open spec fn tombstone_after(mark: Option<(i64, u32)>) -> spec_fn(TombstoneView) -> bool {
    |tombstone: TombstoneView| is_after_mark(tombstone.deleted_at, mark)
}

/// The ids of the tags that the memberships give the task, in the order of the memberships.
pub open spec fn tag_ids_of(links: Seq<TaskTagLinkView>, task_id: Seq<char>) -> Seq<Seq<char>> {
    links.filter(link_of(task_id)).map_values(|link: TaskTagLinkView| link.tag_id)
}

/// The lists whose timestamps denote instants.
pub open spec fn list_valid() -> spec_fn(ListView) -> bool {
    |list: ListView| list.valid()
}

/// The tags whose timestamps denote instants.
pub open spec fn tag_valid() -> spec_fn(TagView) -> bool {
    |tag: TagView| tag.valid()
}

/// The tasks whose timestamps denote instants and that carry no tag ids.
pub open spec fn task_row_valid() -> spec_fn(TaskView) -> bool {
    |task: TaskView| task.valid() && task.tag_ids.len() == 0
}

/// The tombstones whose time denotes an instant.
pub open spec fn tombstone_valid() -> spec_fn(TombstoneView) -> bool {
    |tombstone: TombstoneView| tombstone.valid()
}

/// Gives a row of the tasks table the tags of its memberships.
pub open spec fn tagged(links: Seq<TaskTagLinkView>) -> spec_fn(TaskView) -> TaskView {
    |task: TaskView| task.with_tags(tag_ids_of(links, task.id))
}

impl DatabaseView {
    /// The store with no rows.
    pub open spec fn empty() -> DatabaseView {
        DatabaseView {
            lists: Seq::empty(),
            tags: Seq::empty(),
            tasks: Seq::empty(),
            task_tags: Seq::empty(),
            tombstones: Seq::empty(),
            device_sync: Seq::empty(),
        }
    }

    /// Keys are distinct in each table, the timestamps of lists, tags, tasks and tombstones
    /// denote instants, and no row of the tasks table carries tag ids.
    pub open spec fn wf(self) -> bool {
        &&& distinct(self.lists)
        &&& distinct(self.tags)
        &&& distinct(self.tasks)
        &&& distinct(self.task_tags)
        &&& distinct(self.tombstones)
        &&& distinct(self.device_sync)
        &&& all_rows(self.lists, list_valid())
        &&& all_rows(self.tags, tag_valid())
        &&& all_rows(self.tasks, task_row_valid())
        &&& all_rows(self.tombstones, tombstone_valid())
    }

    /// The task `id` as a device sees it: the row, with the tags of its memberships.
    pub open spec fn task(self, id: Seq<char>) -> Option<TaskView> {
        match lookup(self.tasks, id) {
            Some(row) => Some(row.with_tags(tag_ids_of(self.task_tags, id))),
            None => None,
        }
    }
}

/// The store: the rows of the six tables, held in memory. Whoever keeps a store between
/// requests reads it out with the `collect_` functions and fills it again with the `put_`
/// functions, `insert_task_tag` and `update_device_sync`.
pub struct Database {
    lists: Vec<List>,
    tags: Vec<Tag>,
    tasks: Vec<Task>,
    task_tags: Vec<TaskTagLink>,
    tombstones: Vec<Tombstone>,
    device_sync: Vec<DeviceSync>,
}

impl View for Database {
    type V = DatabaseView;

    closed spec fn view(&self) -> DatabaseView {
        DatabaseView {
            lists: views(self.lists@),
            tags: views(self.tags@),
            tasks: views(self.tasks@),
            task_tags: views(self.task_tags@),
            tombstones: views(self.tombstones@),
            device_sync: views(self.device_sync@),
        }
    }
}

fn find_list(rows: &Vec<List>, id: &str) -> (r: Option<usize>)
    ensures
        match r {
            Some(i) => i < rows@.len() && rows@[i as int]@.id == id@,
            None => forall|k: int| 0 <= k < rows@.len() ==> (#[trigger] rows@[k])@.id != id@,
        },
{
    let mut i: usize = 0;
    while i < rows.len()
        invariant
            i <= rows@.len(),
            forall|k: int| 0 <= k < i ==> (#[trigger] rows@[k])@.id != id@,
        decreases rows@.len() - i,
    {
        if same_text(rows[i].id.as_str(), id) {
            return Some(i);
        }
        i += 1;
    }
    None
}

fn find_tag(rows: &Vec<Tag>, id: &str) -> (r: Option<usize>)
    ensures
        match r {
            Some(i) => i < rows@.len() && rows@[i as int]@.id == id@,
            None => forall|k: int| 0 <= k < rows@.len() ==> (#[trigger] rows@[k])@.id != id@,
        },
{
    let mut i: usize = 0;
    while i < rows.len()
        invariant
            i <= rows@.len(),
            forall|k: int| 0 <= k < i ==> (#[trigger] rows@[k])@.id != id@,
        decreases rows@.len() - i,
    {
        if same_text(rows[i].id.as_str(), id) {
            return Some(i);
        }
        i += 1;
    }
    None
}

fn find_task(rows: &Vec<Task>, id: &str) -> (r: Option<usize>)
    ensures
        match r {
            Some(i) => i < rows@.len() && rows@[i as int]@.id == id@,
            None => forall|k: int| 0 <= k < rows@.len() ==> (#[trigger] rows@[k])@.id != id@,
        },
{
    let mut i: usize = 0;
    while i < rows.len()
        invariant
            i <= rows@.len(),
            forall|k: int| 0 <= k < i ==> (#[trigger] rows@[k])@.id != id@,
        decreases rows@.len() - i,
    {
        if same_text(rows[i].id.as_str(), id) {
            return Some(i);
        }
        i += 1;
    }
    None
}

fn find_link(rows: &Vec<TaskTagLink>, task_id: &str, tag_id: &str) -> (r: Option<usize>)
    ensures
        match r {
            Some(i) => i < rows@.len() && rows@[i as int]@.key() == (task_id@, tag_id@),
            None => forall|k: int|
                0 <= k < rows@.len() ==> (#[trigger] rows@[k])@.key() != (task_id@, tag_id@),
        },
{
    let mut i: usize = 0;
    while i < rows.len()
        invariant
            i <= rows@.len(),
            forall|k: int| 0 <= k < i ==> (#[trigger] rows@[k])@.key() != (task_id@, tag_id@),
        decreases rows@.len() - i,
    {
        if same_text(rows[i].task_id.as_str(), task_id) && same_text(
            rows[i].tag_id.as_str(),
            tag_id,
        ) {
            return Some(i);
        }
        i += 1;
    }
    None
}

fn find_tombstone(rows: &Vec<Tombstone>, id: &str, record_type: RecordType) -> (r: Option<usize>)
    ensures
        match r {
            Some(i) => i < rows@.len() && rows@[i as int]@.key() == (id@, record_type),
            None => forall|k: int|
                0 <= k < rows@.len() ==> (#[trigger] rows@[k])@.key() != (id@, record_type),
        },
{
    let mut i: usize = 0;
    while i < rows.len()
        invariant
            i <= rows@.len(),
            forall|k: int| 0 <= k < i ==> (#[trigger] rows@[k])@.key() != (id@, record_type),
        decreases rows@.len() - i,
    {
        if rows[i].record_type == record_type && same_text(rows[i].id.as_str(), id) {
            return Some(i);
        }
        i += 1;
    }
    None
}

fn find_device(rows: &Vec<DeviceSync>, device_id: &str) -> (r: Option<usize>)
    ensures
        match r {
            Some(i) => i < rows@.len() && rows@[i as int]@.device_id == device_id@,
            None => forall|k: int|
                0 <= k < rows@.len() ==> (#[trigger] rows@[k])@.device_id != device_id@,
        },
{
    let mut i: usize = 0;
    while i < rows.len()
        invariant
            i <= rows@.len(),
            forall|k: int| 0 <= k < i ==> (#[trigger] rows@[k])@.device_id != device_id@,
        decreases rows@.len() - i,
    {
        if same_text(rows[i].device_id.as_str(), device_id) {
            return Some(i);
        }
        i += 1;
    }
    None
}

impl Database {
    /// The store is well formed: see [`DatabaseView::wf`].
    pub open spec fn wf(&self) -> bool {
        self@.wf()
    }

    /// A store with no rows.
    pub fn new() -> (r: Self)
        ensures
            r.wf(),
            r@ == DatabaseView::empty(),
    {
        let r = Database {
            lists: Vec::new(),
            tags: Vec::new(),
            tasks: Vec::new(),
            task_tags: Vec::new(),
            tombstones: Vec::new(),
            device_sync: Vec::new(),
        };
        assert(r@.lists =~= Seq::empty());
        assert(r@.tags =~= Seq::empty());
        assert(r@.tasks =~= Seq::empty());
        assert(r@.task_tags =~= Seq::empty());
        assert(r@.tombstones =~= Seq::empty());
        assert(r@.device_sync =~= Seq::empty());
        r
    }

    /// The list `id`, if the store holds it.
    pub fn get_list(&self, id: &str) -> (r: Option<List>)
        requires
            self.wf(),
        ensures
            match r {
                Some(list) => lookup(self@.lists, id@) == Some(list@),
                None => lookup(self@.lists, id@) is None,
            },
    {
        match find_list(&self.lists, id) {
            Some(i) => {
                proof {
                    lemma_lookup_at(self@.lists, i as int);
                }
                Some(self.lists[i].clone())
            },
            None => {
                proof {
                    lemma_absent(self@.lists, id@);
                }
                None
            },
        }
    }

    /// Stores the list: in the place of the row with its id, or else as a new row.
    pub fn put_list(&mut self, list: List)
        requires
            old(self).wf(),
            list@.valid(),
        ensures
            final(self).wf(),
            final(self)@ == (DatabaseView { lists: put(old(self)@.lists, list@), ..old(self)@ }),
    {
        let ghost before = self@.lists;
        match find_list(&self.lists, list.id.as_str()) {
            Some(i) => {
                proof {
                    lemma_update_is_put(before, i as int, list@);
                }
                self.lists[i] = list;
                assert(self@.lists =~= before.update(i as int, list@));
            },
            None => {
                proof {
                    lemma_absent(before, list@.id);
                    lemma_push_is_put(before, list@);
                }
                self.lists.push(list);
                assert(self@.lists =~= before.push(list@));
            },
        }
    }

    /// Removes the list `id`, unless it is an inbox.
    pub fn delete_list(&mut self, id: &str)
        requires
            old(self).wf(),
        ensures
            final(self).wf(),
            final(self)@ == (DatabaseView {
                lists: old(self)@.lists.filter(list_stays(id@)),
                ..old(self)@
            }),
    {
        let ghost before = self@.lists;
        proof {
            lemma_filter_distinct(before, list_stays(id@));
        }
        match find_list(&self.lists, id) {
            Some(i) => {
                if !self.lists[i].is_inbox {
                    proof {
                        assert forall|j: int| 0 <= j < before.len() && j != i implies list_stays(
                            id@,
                        )(#[trigger] before[j]) by {
                            if j < i {
                                assert(before[j].key() != before[i as int].key());
                            } else {
                                assert(before[i as int].key() != before[j].key());
                            }
                        }
                        lemma_remove_is_filter(before, i as int, list_stays(id@));
                    }
                    self.lists.remove(i);
                    assert(self@.lists =~= before.remove(i as int));
                } else {
                    proof {
                        assert forall|j: int| 0 <= j < before.len() implies list_stays(id@)(
                            #[trigger] before[j],
                        ) by {
                            if j < i {
                                assert(before[j].key() != before[i as int].key());
                            } else if i < j {
                                assert(before[i as int].key() != before[j].key());
                            }
                        }
                        lemma_filter_all(before, list_stays(id@));
                    }
                }
            },
            None => {
                proof {
                    lemma_filter_all(before, list_stays(id@));
                }
            },
        }
    }

    /// The lists changed after the watermark, or all of them where there is none.
    pub fn collect_lists(&self, mark: Option<(i64, u32)>) -> (r: Vec<List>)
        ensures
            views(r@) == self@.lists.filter(list_after(mark)),
    {
        let mut out: Vec<List> = Vec::new();
        let mut i: usize = 0;
        assert(self@.lists.take(0) =~= Seq::empty());
        assert(views(out@) =~= Seq::empty());
        while i < self.lists.len()
            invariant
                i <= self.lists@.len(),
                views(out@) == self@.lists.take(i as int).filter(list_after(mark)),
            decreases self.lists@.len() - i,
        {
            let ghost kept = views(out@);
            proof {
                self@.lists.lemma_take_succ_push(i as int);
                self@.lists.take(i as int).lemma_filter_push(self@.lists[i as int], list_after(mark));
            }
            if after_mark(self.lists[i].updated_at.as_str(), mark) {
                out.push(self.lists[i].clone());
                assert(views(out@) =~= kept.push(self@.lists[i as int]));
            }
            i += 1;
        }
        assert(self@.lists.take(i as int) =~= self@.lists);
        out
    }
    /// The tag `id`, if the store holds it.
    pub fn get_tag(&self, id: &str) -> (r: Option<Tag>)
        requires
            self.wf(),
        ensures
            match r {
                Some(tag) => lookup(self@.tags, id@) == Some(tag@),
                None => lookup(self@.tags, id@) is None,
            },
    {
        match find_tag(&self.tags, id) {
            Some(i) => {
                proof {
                    lemma_lookup_at(self@.tags, i as int);
                }
                Some(self.tags[i].clone())
            },
            None => {
                proof {
                    lemma_absent(self@.tags, id@);
                }
                None
            },
        }
    }

    /// Stores the tag: in the place of the row with its id, or else as a new row.
    pub fn put_tag(&mut self, tag: Tag)
        requires
            old(self).wf(),
            tag@.valid(),
        ensures
            final(self).wf(),
            final(self)@ == (DatabaseView { tags: put(old(self)@.tags, tag@), ..old(self)@ }),
    {
        let ghost before = self@.tags;
        match find_tag(&self.tags, tag.id.as_str()) {
            Some(i) => {
                proof {
                    lemma_update_is_put(before, i as int, tag@);
                }
                self.tags[i] = tag;
                assert(self@.tags =~= before.update(i as int, tag@));
            },
            None => {
                proof {
                    lemma_absent(before, tag@.id);
                    lemma_push_is_put(before, tag@);
                }
                self.tags.push(tag);
                assert(self@.tags =~= before.push(tag@));
            },
        }
    }

    /// Removes the tag `id`.
    pub fn delete_tag(&mut self, id: &str)
        requires
            old(self).wf(),
        ensures
            final(self).wf(),
            final(self)@ == (DatabaseView {
                tags: old(self)@.tags.filter(tag_stays(id@)),
                ..old(self)@
            }),
    {
        let ghost before = self@.tags;
        proof {
            lemma_filter_distinct(before, tag_stays(id@));
        }
        match find_tag(&self.tags, id) {
            Some(i) => {
                proof {
                    assert forall|j: int| 0 <= j < before.len() && j != i implies tag_stays(id@)(
                        #[trigger] before[j],
                    ) by {
                        if j < i {
                            assert(before[j].key() != before[i as int].key());
                        } else {
                            assert(before[i as int].key() != before[j].key());
                        }
                    }
                    lemma_remove_is_filter(before, i as int, tag_stays(id@));
                }
                self.tags.remove(i);
                assert(self@.tags =~= before.remove(i as int));
            },
            None => {
                proof {
                    lemma_filter_all(before, tag_stays(id@));
                }
            },
        }
    }

    /// The tags created after the watermark, or all of them where there is none.
    pub fn collect_tags(&self, mark: Option<(i64, u32)>) -> (r: Vec<Tag>)
        ensures
            views(r@) == self@.tags.filter(tag_after(mark)),
    {
        let mut out: Vec<Tag> = Vec::new();
        let mut i: usize = 0;
        assert(self@.tags.take(0) =~= Seq::empty());
        assert(views(out@) =~= Seq::empty());
        while i < self.tags.len()
            invariant
                i <= self.tags@.len(),
                views(out@) == self@.tags.take(i as int).filter(tag_after(mark)),
            decreases self.tags@.len() - i,
        {
            let ghost kept = views(out@);
            proof {
                self@.tags.lemma_take_succ_push(i as int);
                self@.tags.take(i as int).lemma_filter_push(self@.tags[i as int], tag_after(mark));
            }
            if after_mark(self.tags[i].created_at.as_str(), mark) {
                out.push(self.tags[i].clone());
                assert(views(out@) =~= kept.push(self@.tags[i as int]));
            }
            i += 1;
        }
        assert(self@.tags.take(i as int) =~= self@.tags);
        out
    }

    /// The ids of the tags that the task `task_id` carries.
    pub fn task_tag_ids(&self, task_id: &str) -> (r: Vec<String>)
        ensures
            all_chars(r@) == tag_ids_of(self@.task_tags, task_id@),
    {
        let mut out: Vec<String> = Vec::new();
        let mut i: usize = 0;
        let ghost links = self@.task_tags;
        assert(links.take(0) =~= Seq::empty());
        assert(all_chars(out@) =~= tag_ids_of(links.take(0), task_id@));
        while i < self.task_tags.len()
            invariant
                i <= self.task_tags@.len(),
                links == self@.task_tags,
                all_chars(out@) == tag_ids_of(links.take(i as int), task_id@),
            decreases self.task_tags@.len() - i,
        {
            let ghost kept = all_chars(out@);
            proof {
                links.lemma_take_succ_push(i as int);
                links.take(i as int).lemma_filter_push(links[i as int], link_of(task_id@));
            }
            if same_text(self.task_tags[i].task_id.as_str(), task_id) {
                out.push(self.task_tags[i].tag_id.clone());
                assert(all_chars(out@) =~= kept.push(links[i as int].tag_id));
                assert(tag_ids_of(links.take(i + 1), task_id@) =~= kept.push(links[i as int].tag_id));
            }
            i += 1;
        }
        assert(links.take(i as int) =~= links);
        out
    }

    /// The row of the task `id`, which carries no tag ids, if the store holds it.
    pub fn get_task_row(&self, id: &str) -> (r: Option<Task>)
        requires
            self.wf(),
        ensures
            match r {
                Some(task) => lookup(self@.tasks, id@) == Some(task@),
                None => lookup(self@.tasks, id@) is None,
            },
    {
        match find_task(&self.tasks, id) {
            Some(i) => {
                proof {
                    lemma_lookup_at(self@.tasks, i as int);
                }
                Some(self.tasks[i].clone())
            },
            None => {
                proof {
                    lemma_absent(self@.tasks, id@);
                }
                None
            },
        }
    }

    /// The task `id` with the tags of its memberships, if the store holds it.
    pub fn get_task(&self, id: &str) -> (r: Option<Task>)
        requires
            self.wf(),
        ensures
            match r {
                Some(task) => self@.task(id@) == Some(task@),
                None => self@.task(id@) is None,
            },
    {
        match self.get_task_row(id) {
            Some(row) => {
                let mut task = row;
                task.tag_ids = self.task_tag_ids(id);
                Some(task)
            },
            None => None,
        }
    }

    /// Stores the task, without its tag ids: in the place of the row with its id, or else as a
    /// new row. The memberships stay as they are.
    pub fn put_task(&mut self, task: Task)
        requires
            old(self).wf(),
            task@.valid(),
        ensures
            final(self).wf(),
            final(self)@ == (DatabaseView {
                tasks: put(old(self)@.tasks, task@.row()),
                ..old(self)@
            }),
    {
        let ghost before = self@.tasks;
        let mut row = task;
        row.tag_ids = Vec::new();
        assert(row@.tag_ids =~= Seq::empty());
        assert(row@ == task@.row());
        match find_task(&self.tasks, row.id.as_str()) {
            Some(i) => {
                proof {
                    lemma_update_is_put(before, i as int, row@);
                }
                self.tasks[i] = row;
                assert(self@.tasks =~= before.update(i as int, row@));
            },
            None => {
                proof {
                    lemma_absent(before, row@.id);
                    lemma_push_is_put(before, row@);
                }
                self.tasks.push(row);
                assert(self@.tasks =~= before.push(row@));
            },
        }
    }

    /// Removes the row of the task `id`. The memberships stay as they are.
    pub fn delete_task(&mut self, id: &str)
        requires
            old(self).wf(),
        ensures
            final(self).wf(),
            final(self)@ == (DatabaseView {
                tasks: old(self)@.tasks.filter(task_stays(id@)),
                ..old(self)@
            }),
    {
        let ghost before = self@.tasks;
        proof {
            lemma_filter_distinct(before, task_stays(id@));
        }
        match find_task(&self.tasks, id) {
            Some(i) => {
                proof {
                    assert forall|j: int| 0 <= j < before.len() && j != i implies task_stays(id@)(
                        #[trigger] before[j],
                    ) by {
                        if j < i {
                            assert(before[j].key() != before[i as int].key());
                        } else {
                            assert(before[i as int].key() != before[j].key());
                        }
                    }
                    lemma_remove_is_filter(before, i as int, task_stays(id@));
                }
                self.tasks.remove(i);
                assert(self@.tasks =~= before.remove(i as int));
            },
            None => {
                proof {
                    lemma_filter_all(before, task_stays(id@));
                }
            },
        }
    }

    /// The tasks changed after the watermark, or all of them where there is none, each with
    /// the tags of its memberships.
    pub fn collect_tasks(&self, mark: Option<(i64, u32)>) -> (r: Vec<Task>)
        ensures
            views(r@) == self@.tasks.filter(task_after(mark)).map_values(tagged(self@.task_tags)),
    {
        let mut out: Vec<Task> = Vec::new();
        let mut i: usize = 0;
        let ghost rows = self@.tasks;
        let ghost links = self@.task_tags;
        assert(rows.take(0) =~= Seq::empty());
        assert(views(out@) =~= rows.take(0).filter(task_after(mark)).map_values(tagged(links)));
        while i < self.tasks.len()
            invariant
                i <= self.tasks@.len(),
                rows == self@.tasks,
                links == self@.task_tags,
                views(out@) == rows.take(i as int).filter(task_after(mark)).map_values(
                    tagged(links),
                ),
            decreases self.tasks@.len() - i,
        {
            let ghost kept = views(out@);
            proof {
                rows.lemma_take_succ_push(i as int);
                rows.take(i as int).lemma_filter_push(rows[i as int], task_after(mark));
            }
            if after_mark(self.tasks[i].updated_at.as_str(), mark) {
                let mut task = self.tasks[i].clone();
                task.tag_ids = self.task_tag_ids(task.id.as_str());
                assert(task@ == tagged(links)(rows[i as int]));
                out.push(task);
                assert(views(out@) =~= kept.push(tagged(links)(rows[i as int])));
                assert(rows.take(i + 1).filter(task_after(mark)).map_values(tagged(links))
                    =~= kept.push(tagged(links)(rows[i as int])));
            }
            i += 1;
        }
        assert(rows.take(i as int) =~= rows);
        out
    }

    /// Whether the task `task_id` carries the tag `tag_id`.
    pub fn has_task_tag(&self, task_id: &str, tag_id: &str) -> (r: bool)
        ensures
            r == holds(self@.task_tags, (task_id@, tag_id@)),
    {
        match find_link(&self.task_tags, task_id, tag_id) {
            Some(i) => {
                assert(self@.task_tags[i as int].key() == (task_id@, tag_id@));
                true
            },
            None => {
                proof {
                    lemma_absent(self@.task_tags, (task_id@, tag_id@));
                }
                false
            },
        }
    }

    /// Stores the membership unless the task already carries the tag.
    pub fn insert_task_tag(&mut self, link: TaskTagLink)
        requires
            old(self).wf(),
        ensures
            final(self).wf(),
            final(self)@ == (DatabaseView {
                task_tags: put_new(old(self)@.task_tags, link@),
                ..old(self)@
            }),
    {
        let ghost before = self@.task_tags;
        match find_link(&self.task_tags, link.task_id.as_str(), link.tag_id.as_str()) {
            Some(i) => {
                assert(before[i as int].key() == link@.key());
            },
            None => {
                proof {
                    lemma_absent(before, link@.key());
                    lemma_push_is_put(before, link@);
                }
                self.task_tags.push(link);
                assert(self@.task_tags =~= before.push(link@));
            },
        }
    }

    /// Removes every membership of the task `task_id`.
    pub fn delete_task_tags(&mut self, task_id: &str)
        requires
            old(self).wf(),
        ensures
            final(self).wf(),
            final(self)@ == (DatabaseView {
                task_tags: old(self)@.task_tags.filter(link_stays(task_id@)),
                ..old(self)@
            }),
    {
        let ghost before = self@.task_tags;
        let ghost mut seen: int = 0;
        let mut i: usize = 0;
        proof {
            lemma_filter_distinct(before, link_stays(task_id@));
            assert(before.take(0) =~= Seq::empty());
            assert(self@.task_tags.take(0) =~= Seq::empty());
            assert(before.skip(0) =~= before);
            assert(self@.task_tags.skip(0) =~= before);
        }
        while i < self.task_tags.len()
            invariant
                i <= self.task_tags@.len(),
                0 <= seen <= before.len(),
                self@.task_tags.take(i as int) == before.take(seen).filter(link_stays(task_id@)),
                self@.task_tags.skip(i as int) == before.skip(seen),
                self@.lists == old(self)@.lists,
                self@.tags == old(self)@.tags,
                self@.tasks == old(self)@.tasks,
                self@.tombstones == old(self)@.tombstones,
                self@.device_sync == old(self)@.device_sync,
            decreases self.task_tags@.len() - i,
        {
            let ghost now = self@.task_tags;
            proof {
                assert(now.skip(i as int)[0] == before.skip(seen)[0]);
                assert(now.skip(i as int).len() == before.skip(seen).len());
                before.lemma_take_succ_push(seen);
                before.take(seen).lemma_filter_push(before[seen], link_stays(task_id@));
            }
            if same_text(self.task_tags[i].task_id.as_str(), task_id) {
                self.task_tags.remove(i);
                assert(self@.task_tags =~= now.remove(i as int));
                assert(self@.task_tags.take(i as int) =~= now.take(i as int));
                assert(self@.task_tags.skip(i as int) =~= now.skip(i as int).skip(1));
                assert(before.skip(seen + 1) =~= before.skip(seen).skip(1));
            } else {
                assert(now.take(i + 1) =~= now.take(i as int).push(now[i as int]));
                assert(now.skip(i + 1) =~= now.skip(i as int).skip(1));
                assert(before.skip(seen + 1) =~= before.skip(seen).skip(1));
                i += 1;
            }
            proof {
                seen = seen + 1;
            }
        }
        proof {
            assert(self@.task_tags.skip(i as int).len() == 0);
            assert(before.skip(seen).len() == 0);
            assert(before.take(seen) =~= before);
            assert(self@.task_tags.take(i as int) =~= self@.task_tags);
        }
    }

    /// The tombstone of the record `id` of the given kind, if the store holds one.
    pub fn get_tombstone(&self, id: &str, record_type: RecordType) -> (r: Option<Tombstone>)
        requires
            self.wf(),
        ensures
            match r {
                Some(tombstone) => lookup(self@.tombstones, (id@, record_type)) == Some(
                    tombstone@,
                ),
                None => lookup(self@.tombstones, (id@, record_type)) is None,
            },
    {
        match find_tombstone(&self.tombstones, id, record_type) {
            Some(i) => {
                proof {
                    lemma_lookup_at(self@.tombstones, i as int);
                }
                Some(self.tombstones[i].clone())
            },
            None => {
                proof {
                    lemma_absent(self@.tombstones, (id@, record_type));
                }
                None
            },
        }
    }

    /// Stores the tombstone: in the place of the one with its id and kind, or else as a new
    /// row.
    pub fn put_tombstone(&mut self, tombstone: Tombstone)
        requires
            old(self).wf(),
            tombstone@.valid(),
        ensures
            final(self).wf(),
            final(self)@ == (DatabaseView {
                tombstones: put(old(self)@.tombstones, tombstone@),
                ..old(self)@
            }),
    {
        let ghost before = self@.tombstones;
        match find_tombstone(&self.tombstones, tombstone.id.as_str(), tombstone.record_type) {
            Some(i) => {
                proof {
                    lemma_update_is_put(before, i as int, tombstone@);
                }
                self.tombstones[i] = tombstone;
                assert(self@.tombstones =~= before.update(i as int, tombstone@));
            },
            None => {
                proof {
                    lemma_absent(before, tombstone@.key());
                    lemma_push_is_put(before, tombstone@);
                }
                self.tombstones.push(tombstone);
                assert(self@.tombstones =~= before.push(tombstone@));
            },
        }
    }

    /// The tombstones written after the watermark, or all of them where there is none.
    pub fn collect_tombstones(&self, mark: Option<(i64, u32)>) -> (r: Vec<Tombstone>)
        ensures
            views(r@) == self@.tombstones.filter(tombstone_after(mark)),
    {
        let mut out: Vec<Tombstone> = Vec::new();
        let mut i: usize = 0;
        assert(self@.tombstones.take(0) =~= Seq::empty());
        assert(views(out@) =~= Seq::empty());
        while i < self.tombstones.len()
            invariant
                i <= self.tombstones@.len(),
                views(out@) == self@.tombstones.take(i as int).filter(tombstone_after(mark)),
            decreases self.tombstones@.len() - i,
        {
            let ghost kept = views(out@);
            proof {
                self@.tombstones.lemma_take_succ_push(i as int);
                self@.tombstones.take(i as int).lemma_filter_push(
                    self@.tombstones[i as int],
                    tombstone_after(mark),
                );
            }
            if after_mark(self.tombstones[i].deleted_at.as_str(), mark) {
                out.push(self.tombstones[i].clone());
                assert(views(out@) =~= kept.push(self@.tombstones[i as int]));
            }
            i += 1;
        }
        assert(self@.tombstones.take(i as int) =~= self@.tombstones);
        out
    }

    /// Records up to when the device has synchronised, in the place of what was recorded for
    /// it before.
    pub fn update_device_sync(&mut self, device_id: &str, timestamp: &str)
        requires
            old(self).wf(),
        ensures
            final(self).wf(),
            final(self)@ == (DatabaseView {
                device_sync: put(
                    old(self)@.device_sync,
                    DeviceSyncView { device_id: device_id@, last_sync: timestamp@ },
                ),
                ..old(self)@
            }),
    {
        let ghost before = self@.device_sync;
        let row = DeviceSync { device_id: device_id.to_owned(), last_sync: timestamp.to_owned() };
        match find_device(&self.device_sync, device_id) {
            Some(i) => {
                proof {
                    lemma_update_is_put(before, i as int, row@);
                }
                self.device_sync[i] = row;
                assert(self@.device_sync =~= before.update(i as int, row@));
            },
            None => {
                proof {
                    lemma_absent(before, device_id@);
                    lemma_push_is_put(before, row@);
                }
                self.device_sync.push(row);
                assert(self@.device_sync =~= before.push(row@));
            },
        }
    }

    /// Up to when the device has synchronised, if anything is recorded for it.
    pub fn last_sync_of(&self, device_id: &str) -> (r: Option<String>)
        requires
            self.wf(),
        ensures
            match r {
                Some(at) => lookup(self@.device_sync, device_id@) == Some(
                    DeviceSyncView { device_id: device_id@, last_sync: at@ },
                ),
                None => lookup(self@.device_sync, device_id@) is None,
            },
    {
        match find_device(&self.device_sync, device_id) {
            Some(i) => {
                proof {
                    lemma_lookup_at(self@.device_sync, i as int);
                }
                Some(self.device_sync[i].last_sync.clone())
            },
            None => {
                proof {
                    lemma_absent(self@.device_sync, device_id@);
                }
                None
            },
        }
    }
    /// Every membership, in the order of the store.
    pub fn collect_task_tags(&self) -> (r: Vec<TaskTagLink>)
        ensures
            views(r@) == self@.task_tags,
    {
        let mut out: Vec<TaskTagLink> = Vec::new();
        let mut i: usize = 0;
        while i < self.task_tags.len()
            invariant
                i <= self.task_tags@.len(),
                out@.len() == i,
                forall|k: int| 0 <= k < i ==> out@[k]@ == self.task_tags@[k]@,
            decreases self.task_tags@.len() - i,
        {
            out.push(self.task_tags[i].clone());
            i += 1;
        }
        assert(views(out@) =~= self@.task_tags);
        out
    }

    /// What is recorded of every device, in the order of the store.
    pub fn collect_device_sync(&self) -> (r: Vec<DeviceSync>)
        ensures
            views(r@) == self@.device_sync,
    {
        let mut out: Vec<DeviceSync> = Vec::new();
        let mut i: usize = 0;
        while i < self.device_sync.len()
            invariant
                i <= self.device_sync@.len(),
                out@.len() == i,
                forall|k: int| 0 <= k < i ==> out@[k]@ == self.device_sync@[k]@,
            decreases self.device_sync@.len() - i,
        {
            out.push(self.device_sync[i].clone());
            i += 1;
        }
        assert(views(out@) =~= self@.device_sync);
        out
    }
    /// Whether the store holds the list `id`.
    pub fn has_list(&self, id: &str) -> (r: bool)
        ensures
            r == holds(self@.lists, id@),
    {
        match find_list(&self.lists, id) {
            Some(i) => {
                assert(self@.lists[i as int].key() == id@);
                true
            },
            None => {
                proof {
                    lemma_absent(self@.lists, id@);
                }
                false
            },
        }
    }

    /// Whether the store holds the tag `id`.
    pub fn has_tag(&self, id: &str) -> (r: bool)
        ensures
            r == holds(self@.tags, id@),
    {
        match find_tag(&self.tags, id) {
            Some(i) => {
                assert(self@.tags[i as int].key() == id@);
                true
            },
            None => {
                proof {
                    lemma_absent(self@.tags, id@);
                }
                false
            },
        }
    }

    /// Whether the store holds the row of the task `id`.
    pub fn has_task(&self, id: &str) -> (r: bool)
        ensures
            r == holds(self@.tasks, id@),
    {
        match find_task(&self.tasks, id) {
            Some(i) => {
                assert(self@.tasks[i as int].key() == id@);
                true
            },
            None => {
                proof {
                    lemma_absent(self@.tasks, id@);
                }
                false
            },
        }
    }
}

} // verus!
