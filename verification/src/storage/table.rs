//! A bounded table of rows that are found by a key.
use vstd::prelude::*;

use super::endpoint::{Key, KeyView};

verus! {

/// A row that has a key.
pub trait Keyed: Sized {
    /// The key of the row.
    spec fn row_key(&self) -> KeyView;

    /// Does the row have this key?
    fn has_key(&self, key: &Key) -> (b: bool)
        ensures
            b == (self.row_key() == key@),
    ;

    /// The key of the row.
    fn key_of(&self) -> (k: Key)
        ensures
            k@ == self.row_key(),
    ;
}

/// A fixed number of rows, each free or taken.
pub struct Table<T> {
    /// The rows.
    pub rows: Vec<Option<T>>,
}

/// Position of the first row with a key.
pub open spec fn find_row<T: Keyed>(rows: Seq<Option<T>>, key: KeyView) -> Option<int>
    decreases rows.len(),
{
    if rows.len() == 0 {
        None
    } else {
        match find_row(rows.drop_last(), key) {
            Some(i) => Some(i),
            None => match rows.last() {
                Some(row) => if row.row_key() == key {
                    Some(rows.len() - 1)
                } else {
                    None
                },
                None => None,
            },
        }
    }
}

/// Position of the first free row.
pub open spec fn free_row<T>(rows: Seq<Option<T>>) -> Option<int>
    decreases rows.len(),
{
    if rows.len() == 0 {
        None
    } else {
        match free_row(rows.drop_last()) {
            Some(i) => Some(i),
            None => if rows.last().is_none() {
                Some(rows.len() - 1)
            } else {
                None
            },
        }
    }
}

/// How many rows are taken.
pub open spec fn taken_rows<T>(rows: Seq<Option<T>>) -> nat
    decreases rows.len(),
{
    if rows.len() == 0 {
        0
    } else {
        taken_rows(rows.drop_last()) + if rows.last().is_some() {
            1nat
        } else {
            0nat
        }
    }
}

/// Do all taken rows have different keys?
pub open spec fn unique_keys<T: Keyed>(rows: Seq<Option<T>>) -> bool {
    forall|i: int, j: int|
        0 <= i < j < rows.len() && (#[trigger] rows[i]).is_some() && (#[trigger] rows[j]).is_some()
            ==> rows[i]->0.row_key() != rows[j]->0.row_key()
}

/// What [`find_row`] finds: the row is there, and no earlier one has the key.
pub proof fn lemma_find_row<T: Keyed>(rows: Seq<Option<T>>, key: KeyView)
    ensures
        find_row(rows, key) matches Some(i) ==> 0 <= i < rows.len() && rows[i].is_some()
            && rows[i]->0.row_key() == key && forall|k: int|
            0 <= k < i ==> ((#[trigger] rows[k]) matches Some(r) ==> r.row_key() != key),
        find_row(rows, key).is_none() ==> forall|k: int|
            0 <= k < rows.len() ==> ((#[trigger] rows[k]) matches Some(r) ==> r.row_key() != key),
    decreases rows.len(),
{
    if rows.len() > 0 {
        let front = rows.drop_last();
        lemma_find_row(front, key);
        assert(forall|k: int| 0 <= k < front.len() ==> front[k] == rows[k]);
    }
}

/// What [`free_row`] finds.
pub proof fn lemma_free_row<T>(rows: Seq<Option<T>>)
    ensures
        free_row(rows) matches Some(i) ==> 0 <= i < rows.len() && rows[i].is_none() && forall|k: int|
            0 <= k < i ==> (#[trigger] rows[k]).is_some(),
        free_row(rows).is_none() ==> forall|k: int|
            0 <= k < rows.len() ==> (#[trigger] rows[k]).is_some(),
    decreases rows.len(),
{
    if rows.len() > 0 {
        let front = rows.drop_last();
        lemma_free_row(front);
        assert(forall|k: int| 0 <= k < front.len() ==> front[k] == rows[k]);
    }
}

/// A row found at a position with none before it is what [`find_row`] gives.
pub proof fn lemma_find_row_is<T: Keyed>(rows: Seq<Option<T>>, key: KeyView, at: int)
    requires
        0 <= at < rows.len(),
        rows[at].is_some(),
        rows[at]->0.row_key() == key,
        forall|k: int|
            0 <= k < at ==> ((#[trigger] rows[k]) matches Some(r) ==> r.row_key() != key),
    ensures
        find_row(rows, key) == Some(at),
{
    lemma_find_row(rows, key);
    match find_row(rows, key) {
        Some(i) => {
            if i < at {
                assert(rows[i]->0.row_key() != key);
            } else if at < i {
                assert(rows[at]->0.row_key() != key);
            }
        },
        None => {
            assert(rows[at]->0.row_key() != key);
        },
    }
}

/// A free position with none before it is what [`free_row`] gives.
pub proof fn lemma_free_row_is<T>(rows: Seq<Option<T>>, at: int)
    requires
        0 <= at < rows.len(),
        rows[at].is_none(),
        forall|k: int| 0 <= k < at ==> (#[trigger] rows[k]).is_some(),
    ensures
        free_row(rows) == Some(at),
{
    lemma_free_row(rows);
    match free_row(rows) {
        Some(i) => {
            if i < at {
                assert(rows[i].is_some());
            } else if at < i {
                assert(rows[at].is_some());
            }
        },
        None => {
            assert(rows[at].is_some());
        },
    }
}

/// Where a row with this key goes: over the row that has it, else the first
/// free row.
pub open spec fn place_row<T: Keyed>(rows: Seq<Option<T>>, key: KeyView) -> Option<int> {
    match find_row(rows, key) {
        Some(i) => Some(i),
        None => free_row(rows),
    }
}

/// Freeing one row gives one free row more.
pub proof fn lemma_taken_update<T>(rows: Seq<Option<T>>, at: int, row: Option<T>)
    requires
        0 <= at < rows.len(),
    ensures
        taken_rows(rows.update(at, row)) == taken_rows(rows) - (if rows[at].is_some() {
            1int
        } else {
            0
        }) + (if row.is_some() {
            1int
        } else {
            0
        }),
    decreases rows.len(),
{
    let next = rows.update(at, row);
    if at == rows.len() - 1 {
        assert(next.drop_last() =~= rows.drop_last());
    } else {
        lemma_taken_update(rows.drop_last(), at, row);
        assert(next.drop_last() =~= rows.drop_last().update(at, row));
    }
}

/// A table has no more taken rows than rows.
pub proof fn lemma_taken_bound<T>(rows: Seq<Option<T>>)
    ensures
        taken_rows(rows) <= rows.len(),
    decreases rows.len(),
{
    if rows.len() > 0 {
        lemma_taken_bound(rows.drop_last());
    }
}

/// `n` free rows.
pub fn empty_rows<T>(n: usize) -> (rows: Vec<Option<T>>)
    ensures
        rows@.len() == n,
        forall|i: int| 0 <= i < n ==> (#[trigger] rows@[i]).is_none(),
        taken_rows(rows@) == 0,
{
    let mut rows: Vec<Option<T>> = Vec::new();
    let mut i: usize = 0;
    while i < n
        invariant
            i <= n,
            rows@.len() == i,
            forall|k: int| 0 <= k < i ==> (#[trigger] rows@[k]).is_none(),
            taken_rows(rows@) == 0,
        decreases n - i,
    {
        let ghost before = rows@;
        rows.push(None);
        i = i + 1;
        assert(rows@.drop_last() =~= before);
    }
    rows
}

/// Position of the first free row.
pub fn first_free<T>(rows: &Vec<Option<T>>) -> (r: Option<usize>)
    ensures
        match r {
            Some(i) => free_row(rows@) == Some(i as int) && i < rows@.len() && rows@[
                i as int
            ].is_none(),
            None => free_row(rows@).is_none(),
        },
{
    let mut i: usize = 0;
    while i < rows.len()
        invariant
            i <= rows@.len(),
            forall|k: int| 0 <= k < i ==> (#[trigger] rows@[k]).is_some(),
        decreases rows@.len() - i,
    {
        if rows[i].is_none() {
            proof {
                lemma_free_row_is(rows@, i as int);
            }
            return Some(i);
        }
        i = i + 1;
    }
    proof {
        lemma_free_row(rows@);
    }
    None
}

/// How many rows are taken.
pub fn count_taken<T>(rows: &Vec<Option<T>>) -> (n: usize)
    ensures
        n == taken_rows(rows@),
{
    let mut n: usize = 0;
    let mut i: usize = 0;
    assert(rows@.subrange(0, 0).len() == 0);
    while i < rows.len()
        invariant
            i <= rows@.len(),
            n <= i,
            n == taken_rows(rows@.subrange(0, i as int)),
        decreases rows@.len() - i,
    {
        let ghost next = rows@.subrange(0, i + 1);
        assert(next.drop_last() =~= rows@.subrange(0, i as int));
        assert(next.last() == rows@[i as int]);
        if rows[i].is_some() {
            n = n + 1;
        }
        i = i + 1;
    }
    assert(rows@.subrange(0, i as int) =~= rows@);
    n
}

impl<T: Keyed> Table<T> {
    /// Do all taken rows have different keys?
    pub open spec fn wf(&self) -> bool {
        unique_keys(self.rows@)
    }

    /// The row with a key.
    pub open spec fn row(&self, key: KeyView) -> Option<T> {
        match find_row(self.rows@, key) {
            Some(i) => self.rows@[i],
            None => None,
        }
    }

    /// A table of `n` free rows.
    pub fn with_rows(n: usize) -> (t: Table<T>)
        ensures
            t.rows@.len() == n,
            t.wf(),
            forall|i: int| 0 <= i < n ==> (#[trigger] t.rows@[i]).is_none(),
            taken_rows(t.rows@) == 0,
    {
        Table { rows: empty_rows(n) }
    }

    /// Position of the row with a key.
    pub fn find(&self, key: &Key) -> (r: Option<usize>)
        ensures
            match r {
                Some(i) => find_row(self.rows@, key@) == Some(i as int) && i < self.rows@.len()
                    && self.rows@[i as int].is_some() && self.rows@[i as int]->0.row_key() == key@,
                None => find_row(self.rows@, key@).is_none(),
            },
    {
        let mut i: usize = 0;
        while i < self.rows.len()
            invariant
                i <= self.rows@.len(),
                forall|k: int|
                    0 <= k < i ==> ((#[trigger] self.rows@[k]) matches Some(r) ==> r.row_key()
                        != key@),
            decreases self.rows@.len() - i,
        {
            if let Some(row) = &self.rows[i] {
                if row.has_key(key) {
                    proof {
                        lemma_find_row_is(self.rows@, key@, i as int);
                    }
                    return Some(i);
                }
            }
            i = i + 1;
        }
        proof {
            lemma_find_row(self.rows@, key@);
        }
        None
    }

    /// Put a row in: over the row with its key, else into the first free row.
    ///
    /// Gives the position, or `None` when every row is taken by another key.
    pub fn put(&mut self, row: T) -> (r: Option<usize>)
        requires
            old(self).wf(),
        ensures
            final(self).wf(),
            final(self).rows@.len() == old(self).rows@.len(),
            match r {
                Some(i) => place_row(old(self).rows@, row.row_key()) == Some(i as int) && i < old(self).rows@.len() && final(self).rows@ == old(self).rows@.update(i as int, Some(row)),
                None => place_row(old(self).rows@, row.row_key()).is_none() && *final(self)
                    == *old(self),
            },
    {
        let key = row.key_of();
        let at: usize = match self.find(&key) {
            Some(i) => i,
            None => match first_free(&self.rows) {
                Some(i) => i,
                None => return None,
            },
        };
        proof {
            lemma_find_row(self.rows@, key@);
            lemma_free_row(self.rows@);
        }
        let ghost before = self.rows@;
        self.rows.set(at, Some(row));
        proof {
            let after = self.rows@;
            assert forall|i: int, j: int|
                0 <= i < j < after.len() && (#[trigger] after[i]).is_some() && (
                #[trigger] after[j]).is_some() implies after[i]->0.row_key()
                != after[j]->0.row_key() by {
                if i == at {
                    assert(before[j].is_some());
                    if find_row(before, key@).is_some() {
                        assert(before[i]->0.row_key() != before[j]->0.row_key());
                    }
                } else if j == at {
                    assert(before[i].is_some());
                    if find_row(before, key@).is_some() {
                        assert(before[i]->0.row_key() != before[j]->0.row_key());
                    }
                } else {
                    assert(before[i]->0.row_key() != before[j]->0.row_key());
                }
            }
        }
        Some(at)
    }

    /// Take the row with a key out.
    pub fn take(&mut self, key: &Key) -> (r: Option<T>)
        requires
            old(self).wf(),
        ensures
            final(self).wf(),
            final(self).rows@.len() == old(self).rows@.len(),
            r == old(self).row(key@),
            match find_row(old(self).rows@, key@) {
                Some(i) => final(self).rows@ == old(self).rows@.update(i, None),
                None => final(self).rows@ == old(self).rows@,
            },
            find_row(final(self).rows@, key@).is_none(),
    {
        let ghost before = self.rows@;
        match self.find(key) {
            Some(i) => {
                let row = self.rows[i].take();
                proof {
                    let after = self.rows@;
                    assert(after =~= before.update(i as int, None));
                    lemma_unique_after_free(before, i as int);
                    lemma_find_row(after, key@);
                    lemma_find_row(before, key@);
                    match find_row(after, key@) {
                        Some(k) => {
                            assert(before[k]->0.row_key() == key@);
                            assert(before[i as int]->0.row_key() == key@);
                            if k < i {
                                assert(before[k]->0.row_key() != before[i as int]->0.row_key());
                            } else {
                                assert(before[i as int]->0.row_key() != before[k]->0.row_key());
                            }
                        },
                        None => {},
                    }
                }
                row
            },
            None => None,
        }
    }

    /// Replace the row at a position by one with the same key.
    pub fn replace(&mut self, at: usize, row: T)
        requires
            old(self).wf(),
            at < old(self).rows@.len(),
            old(self).rows@[at as int].is_some(),
            old(self).rows@[at as int]->0.row_key() == row.row_key(),
        ensures
            final(self).wf(),
            final(self).rows@ == old(self).rows@.update(at as int, Some(row)),
    {
        let ghost before = self.rows@;
        self.rows.set(at, Some(row));
        proof {
            lemma_unique_same_key(before, at as int, row);
        }
    }

    /// Free the row at a position.
    pub fn free(&mut self, at: usize)
        requires
            old(self).wf(),
            at < old(self).rows@.len(),
        ensures
            final(self).wf(),
            final(self).rows@ == old(self).rows@.update(at as int, None),
    {
        let ghost before = self.rows@;
        self.rows.set(at, None);
        proof {
            lemma_unique_after_free(before, at as int);
        }
    }
}

/// Freeing a row keeps keys different.
pub proof fn lemma_unique_after_free<T: Keyed>(rows: Seq<Option<T>>, at: int)
    requires
        unique_keys(rows),
        0 <= at < rows.len(),
    ensures
        unique_keys(rows.update(at, None)),
{
    let after = rows.update(at, None);
    assert forall|i: int, j: int|
        0 <= i < j < after.len() && (#[trigger] after[i]).is_some() && (
        #[trigger] after[j]).is_some() implies after[i]->0.row_key() != after[j]->0.row_key() by {
        assert(rows[i].is_some() && rows[j].is_some());
    }
}

/// Replacing a row by one with the same key keeps keys different.
pub proof fn lemma_unique_same_key<T: Keyed>(rows: Seq<Option<T>>, at: int, row: T)
    requires
        unique_keys(rows),
        0 <= at < rows.len(),
        rows[at].is_some(),
        rows[at]->0.row_key() == row.row_key(),
    ensures
        unique_keys(rows.update(at, Some(row))),
{
    let after = rows.update(at, Some(row));
    assert forall|i: int, j: int|
        0 <= i < j < after.len() && (#[trigger] after[i]).is_some() && (
        #[trigger] after[j]).is_some() implies after[i]->0.row_key() != after[j]->0.row_key() by {
        assert(rows[i].is_some() && rows[j].is_some());
    }
}

/// The rows without the one that has this key.
pub open spec fn without<T: Keyed>(rows: Seq<Option<T>>, key: KeyView) -> Seq<Option<T>> {
    match find_row(rows, key) {
        Some(i) => rows.update(i, None),
        None => rows,
    }
}

/// In a table with unique keys, a row is found by its key.
pub proof fn lemma_find_unique<T: Keyed>(rows: Seq<Option<T>>, at: int)
    requires
        unique_keys(rows),
        0 <= at < rows.len(),
        rows[at].is_some(),
    ensures
        find_row(rows, rows[at]->0.row_key()) == Some(at),
{
    assert forall|k: int| 0 <= k < at implies ((#[trigger] rows[k]) matches Some(r) ==> r.row_key()
        != rows[at]->0.row_key()) by {
        if rows[k].is_some() {
            assert(rows[k]->0.row_key() != rows[at]->0.row_key());
        }
    }
    lemma_find_row_is(rows, rows[at]->0.row_key(), at);
}

} // verus!
