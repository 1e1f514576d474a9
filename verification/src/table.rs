//! Tables as sequences of rows, each row found by its key.

use vstd::prelude::*;

verus! {

/// A row that is found by a key.
pub trait Keyed {
    type Key;

    spec fn key(&self) -> Self::Key;
}

/// No two rows share a key.
pub open spec fn distinct<T: Keyed>(rows: Seq<T>) -> bool {
    forall|i: int, j: int|
        #![trigger rows[i].key(), rows[j].key()]
        0 <= i < j < rows.len() ==> rows[i].key() != rows[j].key()
}

/// Some row has the key `k`.
pub open spec fn holds<T: Keyed>(rows: Seq<T>, k: T::Key) -> bool {
    exists|i: int| 0 <= i < rows.len() && #[trigger] rows[i].key() == k
}

/// A row with the key `k`, where there is one.
pub open spec fn lookup<T: Keyed>(rows: Seq<T>, k: T::Key) -> Option<T> {
    if holds(rows, k) {
        Some(rows[choose|i: int| 0 <= i < rows.len() && #[trigger] rows[i].key() == k])
    } else {
        None
    }
}

/// The rows with `row` in the place of each row that has its key.
pub open spec fn replaced<T: Keyed>(rows: Seq<T>, row: T) -> Seq<T> {
    rows.map_values(
        |r: T|
            if r.key() == row.key() {
                row
            } else {
                r
            },
    )
}

/// The rows after `row` is stored: in the place of the row with its key, or else at the end.
pub open spec fn put<T: Keyed>(rows: Seq<T>, row: T) -> Seq<T> {
    if holds(rows, row.key()) {
        replaced(rows, row)
    } else {
        rows.push(row)
    }
}

/// The rows after `row` is stored unless its key is taken.
pub open spec fn put_new<T: Keyed>(rows: Seq<T>, row: T) -> Seq<T> {
    if holds(rows, row.key()) {
        rows
    } else {
        rows.push(row)
    }
}

/// The rows but the one with the key `k`.
pub open spec fn without<T: Keyed>(rows: Seq<T>, k: T::Key) -> Seq<T> {
    rows.filter(|r: T| r.key() != k)
}

/// In a table of distinct keys the row at `i` is the one that its key finds.
pub proof fn lemma_lookup_at<T: Keyed>(rows: Seq<T>, i: int)
    requires
        distinct(rows),
        0 <= i < rows.len(),
    ensures
        holds(rows, rows[i].key()),
        lookup(rows, rows[i].key()) == Some(rows[i]),
{
    let k = rows[i].key();
    assert(rows[i].key() == k);
    let j = choose|j: int| 0 <= j < rows.len() && #[trigger] rows[j].key() == k;
    assert(rows[j].key() == rows[i].key());
    if j < i {
        assert(rows[j].key() != rows[i].key());
    } else if i < j {
        assert(rows[i].key() != rows[j].key());
    }
}

/// What a key finds is a row of the table, and has the key.
pub proof fn lemma_lookup_in<T: Keyed>(rows: Seq<T>, k: T::Key)
    requires
        lookup(rows, k) is Some,
    ensures
        holds(rows, k),
        lookup(rows, k)->0.key() == k,
        exists|i: int| 0 <= i < rows.len() && #[trigger] rows[i] == lookup(rows, k)->0,
{
    let i = choose|i: int| 0 <= i < rows.len() && #[trigger] rows[i].key() == k;
    assert(rows[i] == lookup(rows, k)->0);
}

/// A key that no row has finds nothing.
pub proof fn lemma_absent<T: Keyed>(rows: Seq<T>, k: T::Key)
    requires
        forall|i: int| 0 <= i < rows.len() ==> (#[trigger] rows[i]).key() != k,
    ensures
        !holds(rows, k),
        lookup(rows, k) is None,
{
}

/// Writing over the row that has the key of `row` is `put`.
pub proof fn lemma_update_is_put<T: Keyed>(rows: Seq<T>, i: int, row: T)
    requires
        distinct(rows),
        0 <= i < rows.len(),
        rows[i].key() == row.key(),
    ensures
        rows.update(i, row) == put(rows, row),
        distinct(rows.update(i, row)),
{
    let after = rows.update(i, row);
    assert(rows[i].key() == row.key());
    assert forall|j: int| 0 <= j < rows.len() implies #[trigger] after[j] == replaced(rows, row)[j] by {
        if j < i {
            assert(rows[j].key() != rows[i].key());
        } else if i < j {
            assert(rows[i].key() != rows[j].key());
        }
    }
    assert(after =~= replaced(rows, row));
    assert forall|a: int, b: int| 0 <= a < b < after.len() implies #[trigger] after[a].key()
        != #[trigger] after[b].key() by {
        assert(rows[a].key() != rows[b].key());
    }
}

/// Adding a row whose key is free is `put`, and `put_new`.
pub proof fn lemma_push_is_put<T: Keyed>(rows: Seq<T>, row: T)
    requires
        distinct(rows),
        !holds(rows, row.key()),
    ensures
        rows.push(row) == put(rows, row),
        rows.push(row) == put_new(rows, row),
        distinct(rows.push(row)),
{
    let after = rows.push(row);
    assert forall|a: int, b: int| 0 <= a < b < after.len() implies #[trigger] after[a].key()
        != #[trigger] after[b].key() by {
        if b < rows.len() {
            assert(rows[a].key() != rows[b].key());
        } else {
            assert(rows[a].key() != row.key());
        }
    }
}

/// `put` keeps the keys distinct.
pub proof fn lemma_put_distinct<T: Keyed>(rows: Seq<T>, row: T)
    requires
        distinct(rows),
    ensures
        distinct(put(rows, row)),
        distinct(put_new(rows, row)),
{
    if holds(rows, row.key()) {
        let i = choose|i: int| 0 <= i < rows.len() && #[trigger] rows[i].key() == row.key();
        lemma_update_is_put(rows, i, row);
    } else {
        lemma_push_is_put(rows, row);
    }
}

/// Taking out the one row on which `keep` fails is filtering by `keep`.
pub proof fn lemma_remove_is_filter<T>(rows: Seq<T>, i: int, keep: spec_fn(T) -> bool)
    requires
        0 <= i < rows.len(),
        !keep(rows[i]),
        forall|j: int| 0 <= j < rows.len() && j != i ==> keep(#[trigger] rows[j]),
    ensures
        rows.remove(i) == rows.filter(keep),
    decreases rows.len(),
{
    reveal(Seq::filter);
    let last = rows.len() - 1;
    if i == last {
        assert(rows.remove(i) =~= rows.drop_last());
        lemma_filter_all(rows.drop_last(), keep);
    } else {
        assert(keep(rows[last]));
        lemma_remove_is_filter(rows.drop_last(), i, keep);
        assert(rows.remove(i) =~= rows.drop_last().remove(i).push(rows[last]));
    }
}

/// Filtering by what every row meets changes nothing.
pub proof fn lemma_filter_all<T>(rows: Seq<T>, keep: spec_fn(T) -> bool)
    requires
        forall|j: int| 0 <= j < rows.len() ==> keep(#[trigger] rows[j]),
    ensures
        rows.filter(keep) == rows,
    decreases rows.len(),
{
    reveal(Seq::filter);
    if rows.len() > 0 {
        lemma_filter_all(rows.drop_last(), keep);
        assert(rows.drop_last().push(rows.last()) =~= rows);
    }
}

/// What a filter leaves has distinct keys where the table had.
pub proof fn lemma_filter_distinct<T: Keyed>(rows: Seq<T>, keep: spec_fn(T) -> bool)
    requires
        distinct(rows),
    ensures
        distinct(rows.filter(keep)),
        forall|k: T::Key| holds(rows.filter(keep), k) ==> holds(rows, k),
    decreases rows.len(),
{
    reveal(Seq::filter);
    if rows.len() > 0 {
        let front = rows.drop_last();
        assert forall|a: int, b: int| 0 <= a < b < front.len() implies #[trigger] front[a].key()
            != #[trigger] front[b].key() by {
            assert(rows[a].key() != rows[b].key());
        }
        lemma_filter_distinct(front, keep);
        let kept = front.filter(keep);
        assert forall|k: T::Key| holds(rows.filter(keep), k) implies holds(rows, k) by {
            let i = choose|i: int|
                0 <= i < rows.filter(keep).len() && #[trigger] rows.filter(keep)[i].key() == k;
            if i < kept.len() {
                assert(kept[i].key() == k);
                assert(holds(kept, k));
                assert(holds(front, k));
                let j = choose|j: int| 0 <= j < front.len() && #[trigger] front[j].key() == k;
                assert(rows[j].key() == k);
            } else {
                assert(rows[rows.len() - 1].key() == k);
            }
        }
        if keep(rows.last()) {
            let after = kept.push(rows.last());
            assert forall|a: int, b: int| 0 <= a < b < after.len() implies #[trigger] after[a].key()
                != #[trigger] after[b].key() by {
                if b < kept.len() {
                    assert(kept[a].key() != kept[b].key());
                } else {
                    assert(kept[a].key() == kept[a].key());
                    assert(holds(kept, kept[a].key()));
                    assert(holds(front, kept[a].key()));
                    let j = choose|j: int|
                        0 <= j < front.len() && #[trigger] front[j].key() == kept[a].key();
                    assert(rows[j].key() != rows[rows.len() - 1].key());
                }
            }
        }
    }
}

/// Every row meets `p`.
pub open spec fn all_rows<T>(rows: Seq<T>, p: spec_fn(T) -> bool) -> bool {
    forall|i: int| 0 <= i < rows.len() ==> p(#[trigger] rows[i])
}

/// After `put` the key of the row finds the row, and every other key finds what it found.
pub proof fn lemma_put_lookup<T: Keyed>(rows: Seq<T>, row: T)
    requires
        distinct(rows),
    ensures
        distinct(put(rows, row)),
        lookup(put(rows, row), row.key()) == Some(row),
        forall|k: T::Key| k != row.key() ==> lookup(put(rows, row), k) == lookup(rows, k),
        forall|k: T::Key| holds(put(rows, row), k) == (holds(rows, k) || k == row.key()),
{
    let after = put(rows, row);
    lemma_put_distinct(rows, row);
    if holds(rows, row.key()) {
        let i = choose|i: int| 0 <= i < rows.len() && #[trigger] rows[i].key() == row.key();
        lemma_update_is_put(rows, i, row);
        assert(after == rows.update(i, row));
        lemma_lookup_at(after, i);
        assert forall|k: T::Key| k != row.key() implies lookup(after, k) == lookup(rows, k) by {
            if holds(rows, k) {
                let j = choose|j: int| 0 <= j < rows.len() && #[trigger] rows[j].key() == k;
                lemma_lookup_at(rows, j);
                assert(after[j] == rows[j]);
                lemma_lookup_at(after, j);
            } else if holds(after, k) {
                let j = choose|j: int| 0 <= j < after.len() && #[trigger] after[j].key() == k;
                assert(rows[j].key() == k);
            }
        }
        assert forall|k: T::Key| holds(after, k) == (holds(rows, k) || k == row.key()) by {
            if holds(after, k) && k != row.key() {
                let j = choose|j: int| 0 <= j < after.len() && #[trigger] after[j].key() == k;
                assert(rows[j].key() == k);
            }
            if holds(rows, k) && k != row.key() {
                let j = choose|j: int| 0 <= j < rows.len() && #[trigger] rows[j].key() == k;
                assert(after[j].key() == k);
            }
            if k == row.key() {
                assert(after[i].key() == k);
            }
        }
    } else {
        lemma_push_is_put(rows, row);
        assert(after == rows.push(row));
        lemma_lookup_at(after, rows.len() as int);
        assert forall|k: T::Key| k != row.key() implies lookup(after, k) == lookup(rows, k) by {
            if holds(rows, k) {
                let j = choose|j: int| 0 <= j < rows.len() && #[trigger] rows[j].key() == k;
                lemma_lookup_at(rows, j);
                assert(after[j] == rows[j]);
                lemma_lookup_at(after, j);
            } else if holds(after, k) {
                let j = choose|j: int| 0 <= j < after.len() && #[trigger] after[j].key() == k;
                assert(rows[j].key() == k);
            }
        }
        assert forall|k: T::Key| holds(after, k) == (holds(rows, k) || k == row.key()) by {
            if holds(after, k) && k != row.key() {
                let j = choose|j: int| 0 <= j < after.len() && #[trigger] after[j].key() == k;
                assert(rows[j].key() == k);
            }
            if holds(rows, k) {
                let j = choose|j: int| 0 <= j < rows.len() && #[trigger] rows[j].key() == k;
                assert(after[j].key() == k);
            }
            if k == row.key() {
                assert(after[rows.len() as int].key() == k);
            }
        }
    }
}

/// A second `put` under the same key leaves only the second row.
pub proof fn lemma_put_twice<T: Keyed>(rows: Seq<T>, first: T, second: T)
    requires
        distinct(rows),
        first.key() == second.key(),
    ensures
        put(put(rows, first), second) == put(rows, second),
{
    lemma_put_lookup(rows, first);
    if holds(rows, first.key()) {
        let i = choose|i: int| 0 <= i < rows.len() && #[trigger] rows[i].key() == first.key();
        lemma_update_is_put(rows, i, first);
        lemma_update_is_put(rows, i, second);
        lemma_update_is_put(rows.update(i, first), i, second);
        assert(rows.update(i, first).update(i, second) =~= rows.update(i, second));
    } else {
        lemma_push_is_put(rows, first);
        lemma_push_is_put(rows, second);
        let n = rows.len() as int;
        lemma_update_is_put(rows.push(first), n, second);
        assert(rows.push(first).update(n, second) =~= rows.push(second));
    }
}

/// `put` of a row that meets `p` keeps every row meeting `p`.
pub proof fn lemma_put_all<T: Keyed>(rows: Seq<T>, row: T, p: spec_fn(T) -> bool)
    requires
        all_rows(rows, p),
        p(row),
    ensures
        all_rows(put(rows, row), p),
        all_rows(put_new(rows, row), p),
{
    assert forall|i: int| 0 <= i < put(rows, row).len() implies p(#[trigger] put(rows, row)[i]) by {
        if holds(rows, row.key()) {
            assert(p(rows[i]));
        } else if i < rows.len() {
            assert(p(rows[i]));
        }
    }
    assert forall|i: int| 0 <= i < put_new(rows, row).len() implies p(
        #[trigger] put_new(rows, row)[i],
    ) by {
        if i < rows.len() {
            assert(p(rows[i]));
        }
    }
}

/// What a filter leaves meets what every row met.
pub proof fn lemma_filter_keeps<T>(rows: Seq<T>, keep: spec_fn(T) -> bool, p: spec_fn(T) -> bool)
    requires
        all_rows(rows, p),
    ensures
        all_rows(rows.filter(keep), p),
    decreases rows.len(),
{
    reveal(Seq::filter);
    if rows.len() > 0 {
        let front = rows.drop_last();
        assert forall|i: int| 0 <= i < front.len() implies p(#[trigger] front[i]) by {
            assert(p(rows[i]));
        }
        lemma_filter_keeps(front, keep, p);
        assert(p(rows[rows.len() - 1]));
    }
}

/// What a filter leaves meets what the filter asks.
pub proof fn lemma_filtered<T>(rows: Seq<T>, keep: spec_fn(T) -> bool)
    ensures
        all_rows(rows.filter(keep), keep),
    decreases rows.len(),
{
    reveal(Seq::filter);
    if rows.len() > 0 {
        lemma_filtered(rows.drop_last(), keep);
    }
}

/// What a key finds after a filter: what it found, if the filter keeps it.
pub proof fn lemma_filter_lookup<T: Keyed>(rows: Seq<T>, keep: spec_fn(T) -> bool, k: T::Key)
    requires
        distinct(rows),
    ensures
        lookup(rows.filter(keep), k) == match lookup(rows, k) {
            Some(row) => if keep(row) {
                Some(row)
            } else {
                None
            },
            None => None,
        },
{
    let kept = rows.filter(keep);
    lemma_filter_distinct(rows, keep);
    if holds(kept, k) {
        let j = choose|j: int| 0 <= j < kept.len() && #[trigger] kept[j].key() == k;
        lemma_lookup_at(kept, j);
        rows.lemma_filter_pred(keep, j);
        assert(kept.contains(kept[j]));
        rows.lemma_filter_contains_rev(keep, kept[j]);
        let i = choose|i: int| 0 <= i < rows.len() && rows[i] == kept[j];
        lemma_lookup_at(rows, i);
    } else if holds(rows, k) {
        let i = choose|i: int| 0 <= i < rows.len() && #[trigger] rows[i].key() == k;
        lemma_lookup_at(rows, i);
        if keep(rows[i]) {
            rows.lemma_filter_contains(keep, i);
            let j = choose|j: int| 0 <= j < kept.len() && kept[j] == rows[i];
            assert(kept[j].key() == k);
        }
    }
}

/// A filter that no row meets leaves nothing.
pub proof fn lemma_filter_none<T>(rows: Seq<T>, keep: spec_fn(T) -> bool)
    requires
        forall|j: int| 0 <= j < rows.len() ==> !keep(#[trigger] rows[j]),
    ensures
        rows.filter(keep) == Seq::<T>::empty(),
    decreases rows.len(),
{
    reveal(Seq::filter);
    if rows.len() > 0 {
        lemma_filter_none(rows.drop_last(), keep);
    }
}

/// What is among the rows that a filter keeps and a function maps: the images of the rows
/// that the filter keeps.
pub proof fn lemma_filter_map_contains<T, U>(
    rows: Seq<T>,
    keep: spec_fn(T) -> bool,
    f: spec_fn(T) -> U,
    y: U,
)
    ensures
        rows.filter(keep).map_values(f).contains(y) <==> exists|i: int|
            0 <= i < rows.len() && keep(#[trigger] rows[i]) && f(rows[i]) == y,
{
    let kept = rows.filter(keep);
    let mapped = kept.map_values(f);
    if mapped.contains(y) {
        let j = choose|j: int| 0 <= j < mapped.len() && mapped[j] == y;
        rows.lemma_filter_pred(keep, j);
        assert(kept.contains(kept[j]));
        rows.lemma_filter_contains_rev(keep, kept[j]);
        let i = choose|i: int| 0 <= i < rows.len() && rows[i] == kept[j];
        assert(keep(rows[i]) && f(rows[i]) == y);
    }
    if exists|i: int| 0 <= i < rows.len() && keep(#[trigger] rows[i]) && f(rows[i]) == y {
        let i = choose|i: int| 0 <= i < rows.len() && keep(#[trigger] rows[i]) && f(rows[i]) == y;
        rows.lemma_filter_contains(keep, i);
        let j = choose|j: int| 0 <= j < kept.len() && kept[j] == rows[i];
        assert(mapped[j] == y);
    }
}

/// What is in two sequences joined is in one of them.
pub proof fn lemma_joined_contains<T>(a: Seq<T>, b: Seq<T>, y: T)
    ensures
        (a + b).contains(y) <==> a.contains(y) || b.contains(y),
{
    if (a + b).contains(y) {
        let j = choose|j: int| 0 <= j < (a + b).len() && (a + b)[j] == y;
        if j < a.len() {
            assert(a[j] == y);
        } else {
            assert(b[j - a.len()] == y);
        }
    }
    if a.contains(y) {
        let j = choose|j: int| 0 <= j < a.len() && a[j] == y;
        assert((a + b)[j] == y);
    }
    if b.contains(y) {
        let j = choose|j: int| 0 <= j < b.len() && b[j] == y;
        assert((a + b)[a.len() + j] == y);
    }
}

/// The rows after each of the items was stored with `put`, one after the other.
pub open spec fn replayed<T: Keyed>(rows: Seq<T>, items: Seq<T>) -> Seq<T>
    decreases items.len(),
{
    if items.len() == 0 {
        rows
    } else {
        put(replayed(rows, items.drop_last()), items.last())
    }
}

/// The last of the items that has the key `k`.
pub open spec fn last_of<T: Keyed>(items: Seq<T>, k: T::Key) -> Option<T>
    decreases items.len(),
{
    if items.len() == 0 {
        None
    } else if items.last().key() == k {
        Some(items.last())
    } else {
        last_of(items.drop_last(), k)
    }
}

/// A row with, in its place, the last of the items that has its key, if there is one.
pub open spec fn settle<T: Keyed>(items: Seq<T>) -> spec_fn(T) -> T {
    |row: T|
        match last_of(items, row.key()) {
            Some(item) => item,
            None => row,
        }
}

/// The last item with a key is one of the items and has the key; every item's key has a last
/// item.
pub proof fn lemma_last_of<T: Keyed>(items: Seq<T>, k: T::Key)
    ensures
        match last_of(items, k) {
            Some(item) => item.key() == k && exists|i: int|
                0 <= i < items.len() && #[trigger] items[i] == item,
            None => forall|i: int| 0 <= i < items.len() ==> (#[trigger] items[i]).key() != k,
        },
    decreases items.len(),
{
    if items.len() > 0 {
        let front = items.drop_last();
        lemma_last_of(front, k);
        if items.last().key() == k {
            assert(items[items.len() - 1] == items.last());
        } else {
            match last_of(front, k) {
                Some(item) => {
                    let i = choose|i: int| 0 <= i < front.len() && #[trigger] front[i] == item;
                    assert(items[i] == item);
                },
                None => {
                    assert forall|i: int| 0 <= i < items.len() implies (#[trigger] items[i]).key()
                        != k by {
                        if i < front.len() {
                            assert(front[i].key() != k);
                        }
                    }
                },
            }
        }
    }
}

/// Replaying items keeps the keys distinct, and a key then finds the last item that has it,
/// or what it found before where no item has it.
pub proof fn lemma_replayed_lookup<T: Keyed>(rows: Seq<T>, items: Seq<T>, k: T::Key)
    requires
        distinct(rows),
    ensures
        distinct(replayed(rows, items)),
        lookup(replayed(rows, items), k) == match last_of(items, k) {
            Some(item) => Some(item),
            None => lookup(rows, k),
        },
    decreases items.len(),
{
    if items.len() > 0 {
        lemma_replayed_lookup(rows, items.drop_last(), k);
        lemma_put_lookup(replayed(rows, items.drop_last()), items.last());
    }
}

/// Replaying items whose keys the table holds puts, in the place of each row, the last item
/// that has its key.
pub proof fn lemma_replayed_settles<T: Keyed>(rows: Seq<T>, items: Seq<T>)
    requires
        distinct(rows),
        forall|i: int| 0 <= i < items.len() ==> holds(rows, (#[trigger] items[i]).key()),
    ensures
        replayed(rows, items) == rows.map_values(settle(items)),
    decreases items.len(),
{
    if items.len() == 0 {
        assert(rows.map_values(settle(items)) =~= rows);
    } else {
        let front = items.drop_last();
        let item = items.last();
        assert forall|i: int| 0 <= i < front.len() implies holds(rows, (#[trigger] front[i]).key()) by {
            assert(holds(rows, items[i].key()));
        }
        lemma_replayed_settles(rows, front);
        let before = rows.map_values(settle(front));
        assert forall|i: int| 0 <= i < rows.len() implies (#[trigger] before[i]).key()
            == rows[i].key() by {
            lemma_last_of(front, rows[i].key());
        }
        assert(holds(rows, items[items.len() - 1].key()));
        let j = choose|j: int| 0 <= j < rows.len() && #[trigger] rows[j].key() == item.key();
        assert(before[j].key() == item.key());
        assert(holds(before, item.key()));
        assert(put(before, item) =~= rows.map_values(settle(items)));
    }
}

/// Replaying items over a table that already holds, for each item, the last item with its key
/// changes nothing.
pub proof fn lemma_replayed_fixed<T: Keyed>(rows: Seq<T>, items: Seq<T>)
    requires
        distinct(rows),
        forall|i: int|
            0 <= i < items.len() ==> lookup(rows, (#[trigger] items[i]).key()) == last_of(
                items,
                items[i].key(),
            ),
    ensures
        replayed(rows, items) == rows,
{
    assert forall|i: int| 0 <= i < items.len() implies holds(rows, (#[trigger] items[i]).key()) by {
        lemma_last_of(items, items[i].key());
    }
    lemma_replayed_settles(rows, items);
    assert forall|j: int| 0 <= j < rows.len() implies settle(items)(#[trigger] rows[j])
        == rows[j] by {
        let k = rows[j].key();
        lemma_last_of(items, k);
        if let Some(item) = last_of(items, k) {
            let i = choose|i: int| 0 <= i < items.len() && #[trigger] items[i] == item;
            assert(lookup(rows, items[i].key()) == last_of(items, items[i].key()));
            lemma_lookup_at(rows, j);
        }
    }
    assert(rows.map_values(settle(items)) =~= rows);
}

} // verus!
