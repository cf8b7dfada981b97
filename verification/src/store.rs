//! A table of records held in memory.
//!
//! `MemoryStore` does to a vector of rows what a storage engine does to the
//! table: it gives every new row an identity that no other row has, reads the
//! rows back in the order in which they were written, and deletes by identity
//! or by reference. It serves where no engine is at hand, and it states what
//! is expected of one.
use vstd::prelude::*;
use crate::error::{EngineError, StorageFault};
use crate::record::{EmbeddingRecord, RecordView};
use crate::repository::{
    insert_row, is_first_unreadable, key_matches, lemma_remaining, read_rows, remaining,
    row_matches, row_read, row_to_write, row_views, written, DeleteKey, KeyView, StoredRow,
    StoredRowView,
};

verus! {

/// What a `MemoryStore` holds, as plain values.
pub struct StoreView {
    /// The length of every vector in the store.
    pub dimension: nat,
    /// The identity that the next row gets.
    pub next_id: int,
    /// The rows, in the order in which they were written.
    pub rows: Seq<StoredRowView>,
}

/// Whether the identities of the rows ascend and stay below `bound`.
pub open spec fn ids_ascend_below(rows: Seq<StoredRowView>, bound: int) -> bool {
    &&& forall|i: int| 0 <= i < rows.len() ==> (#[trigger] rows[i]).id < bound
    &&& forall|i: int, j: int|
        0 <= i < j < rows.len() ==> (#[trigger] rows[i]).id < (#[trigger] rows[j]).id
}

/// A table of records held in memory. The identities of its rows ascend in
/// the order of the rows, so no two rows have the same, and every one is
/// below the identity that the next row gets.
pub struct MemoryStore {
    dimension: usize,
    next_id: i64,
    rows: Vec<StoredRow>,
}

impl View for MemoryStore {
    type V = StoreView;

    closed spec fn view(&self) -> StoreView {
        StoreView {
            dimension: self.dimension as nat,
            next_id: self.next_id as int,
            rows: row_views(self.rows@),
        }
    }
}

/// Deleting keeps the identities ascending and below the bound they had.
proof fn lemma_remaining_ids(rows: Seq<StoredRowView>, key: KeyView, bound: int)
    requires
        ids_ascend_below(rows, bound),
    ensures
        ids_ascend_below(remaining(rows, key), bound),
    decreases rows.len(),
{
    if rows.len() > 0 {
        let earlier = rows.drop_last();
        assert forall|i: int| 0 <= i < earlier.len() implies (#[trigger] earlier[i]).id
            < rows.last().id by {
            assert(earlier[i] == rows[i]);
        }
        assert(ids_ascend_below(earlier, rows.last().id as int)) by {
            assert forall|i: int, j: int| 0 <= i < j < earlier.len() implies (
            #[trigger] earlier[i]).id < (#[trigger] earlier[j]).id by {
                assert(earlier[i] == rows[i] && earlier[j] == rows[j]);
            }
        }
        lemma_remaining_ids(earlier, key, rows.last().id as int);
    }
}

impl MemoryStore {
    #[verifier::type_invariant]
    spec fn identities_unique(self) -> bool {
        ids_ascend_below(row_views(self.rows@), self.next_id as int)
    }

    /// An empty store for vectors of the given dimension. Its first row gets
    /// the identity 1.
    pub fn new(dimension: usize) -> (store: MemoryStore)
        ensures
            store@ == (StoreView { dimension: dimension as nat, next_id: 1, rows: Seq::empty() }),
            ids_ascend_below(store@.rows, store@.next_id),
    {
        let store = MemoryStore { dimension, next_id: 1, rows: Vec::new() };
        assert(store@.rows =~= Seq::empty());
        store
    }

    /// An empty store for vectors of the given dimension, whose first row
    /// gets the identity `first_id`.
    pub fn starting_at(dimension: usize, first_id: i64) -> (store: MemoryStore)
        ensures
            store@ == (StoreView {
                dimension: dimension as nat,
                next_id: first_id as int,
                rows: Seq::empty(),
            }),
            ids_ascend_below(store@.rows, store@.next_id),
    {
        let store = MemoryStore { dimension, next_id: first_id, rows: Vec::new() };
        assert(store@.rows =~= Seq::empty());
        store
    }

    /// The length of every vector in the store.
    pub fn dimension(&self) -> (d: usize)
        ensures
            d == self@.dimension,
    {
        self.dimension
    }

    /// The number of rows in the store.
    pub fn len(&self) -> (n: usize)
        ensures
            n == self@.rows.len(),
            ids_ascend_below(self@.rows, self@.next_id),
    {
        proof {
            use_type_invariant(self);
        }
        self.rows.len()
    }

    fn append(&mut self, row: StoredRow)
        requires
            row.id == old(self).next_id,
            row.id < i64::MAX,
        ensures
            final(self)@ == (StoreView {
                next_id: old(self)@.next_id + 1,
                rows: old(self)@.rows.push(row@),
                ..old(self)@
            }),
            ids_ascend_below(old(self)@.rows, old(self)@.next_id),
            ids_ascend_below(final(self)@.rows, final(self)@.next_id),
    {
        proof {
            use_type_invariant(&*self);
        }
        let ghost before = row_views(self.rows@);
        let mut rows: Vec<StoredRow> = Vec::new();
        core::mem::swap(&mut self.rows, &mut rows);
        assert(row_views(self.rows@) =~= Seq::empty());
        self.next_id = row.id + 1;
        rows.push(row);
        proof {
            let after = row_views(rows@);
            assert(after =~= before.push(row@));
            assert forall|i: int| 0 <= i < after.len() implies (#[trigger] after[i]).id
                < row.id + 1 by {
                if i < before.len() {
                    assert(after[i] == before[i]);
                }
            }
            assert forall|i: int, j: int| 0 <= i < j < after.len() implies (
            #[trigger] after[i]).id < (#[trigger] after[j]).id by {
                assert(after[i] == before[i]);
                if j < before.len() {
                    assert(after[j] == before[j]);
                }
            }
        }
        core::mem::swap(&mut self.rows, &mut rows);
    }

    /// Writes one record and returns the identity that the store gives it.
    ///
    /// Fails with `StorageError`, and leaves the store as it was, when the
    /// text is empty, when the vector has another length than the store's
    /// dimension, or when no identity is left.
    pub fn insert(&mut self, reference: String, text: String, vector: &Vec<u32>) -> (r: Result<
        i64,
        EngineError,
    >)
        ensures
            match r {
                Ok(id) => {
                    &&& id == old(self)@.next_id
                    &&& row_to_write(reference@, text@, vector@, old(self)@.dimension) is Ok
                    &&& final(self)@ == (StoreView {
                        next_id: id + 1,
                        rows: old(self)@.rows.push(
                            written(
                                id,
                                row_to_write(
                                    reference@,
                                    text@,
                                    vector@,
                                    old(self)@.dimension,
                                ).unwrap(),
                            ),
                        ),
                        ..old(self)@
                    })
                },
                Err(e) => {
                    &&& final(self)@ == old(self)@
                    &&& match row_to_write(reference@, text@, vector@, old(self)@.dimension) {
                        Err(refused) => e == refused,
                        Ok(_) => old(self)@.next_id == i64::MAX && e
                            == (EngineError::StorageError {
                            row: None,
                            cause: StorageFault::Full,
                        }),
                    }
                },
            },
            vector@.len() != old(self)@.dimension ==> r is Err,
            ids_ascend_below(old(self)@.rows, old(self)@.next_id),
            ids_ascend_below(final(self)@.rows, final(self)@.next_id),
    {
        proof {
            use_type_invariant(&*self);
        }
        let made = match insert_row(reference, text, vector, self.dimension) {
            Err(e) => {
                return Err(e);
            },
            Ok(made) => made,
        };
        if self.next_id == i64::MAX {
            return Err(EngineError::StorageError { row: None, cause: StorageFault::Full });
        }
        let id = self.next_id;
        self.append(
            StoredRow {
                id,
                reference: Some(made.reference),
                text: Some(made.text),
                embedding: Some(made.embedding),
            },
        );
        Ok(id)
    }

    /// Writes a row as it is given, checked by nothing, and returns the
    /// identity that the store gives it, or `None` when no identity is left.
    /// This is how a row gets into the table that was not written by
    /// `insert`.
    pub fn insert_raw(
        &mut self,
        reference: Option<String>,
        text: Option<String>,
        embedding: Option<Vec<u8>>,
    ) -> (r: Option<i64>)
        ensures
            match r {
                Some(id) => {
                    &&& id == old(self)@.next_id
                    &&& final(self)@ == (StoreView {
                        next_id: id + 1,
                        rows: old(self)@.rows.push(
                            (StoredRow { id, reference, text, embedding })@,
                        ),
                        ..old(self)@
                    })
                },
                None => old(self)@.next_id == i64::MAX && final(self)@ == old(self)@,
            },
            ids_ascend_below(old(self)@.rows, old(self)@.next_id),
            ids_ascend_below(final(self)@.rows, final(self)@.next_id),
    {
        proof {
            use_type_invariant(&*self);
        }
        if self.next_id == i64::MAX {
            return None;
        }
        let id = self.next_id;
        self.append(StoredRow { id, reference, text, embedding });
        Some(id)
    }

    /// Reads every record, in the order in which the rows were written.
    ///
    /// Either every row stands for a record, and all are returned, or the
    /// read fails with the error of the first row that does not.
    pub fn list_all(&self) -> (r: Result<Vec<EmbeddingRecord>, EngineError>)
        ensures
            match r {
                Ok(records) => {
                    &&& records@.len() == self@.rows.len()
                    &&& forall|i: int|
                        0 <= i < records@.len() ==> row_read(
                            self@.rows[i],
                            self@.dimension,
                        ) == Ok::<RecordView, EngineError>((#[trigger] records@[i])@)
                },
                Err(e) => exists|index: int|
                    is_first_unreadable(self@.rows, self@.dimension, index, e),
            },
            ids_ascend_below(self@.rows, self@.next_id),
    {
        proof {
            use_type_invariant(self);
        }
        let r = read_rows(&self.rows, self.dimension);
        proof {
            if let Ok(records) = &r {
                assert forall|i: int| 0 <= i < records@.len() implies row_read(
                    self@.rows[i],
                    self@.dimension,
                ) == Ok::<RecordView, EngineError>((#[trigger] records@[i])@) by {
                    assert(self@.rows[i] == self.rows@[i]@);
                }
            }
        }
        r
    }

    /// Deletes the rows that `key` matches and returns their number.
    ///
    /// A key that matches no row deletes nothing and returns zero.
    pub fn delete(&mut self, key: &DeleteKey) -> (rows_affected: usize)
        ensures
            final(self)@ == (StoreView { rows: remaining(old(self)@.rows, key@), ..old(self)@ }),
            rows_affected == old(self)@.rows.len() - final(self)@.rows.len(),
            (forall|i: int|
                0 <= i < old(self)@.rows.len() ==> !key_matches(
                    #[trigger] old(self)@.rows[i],
                    key@,
                )) ==> rows_affected == 0 && final(self)@ == old(self)@,
            ids_ascend_below(old(self)@.rows, old(self)@.next_id),
            ids_ascend_below(final(self)@.rows, final(self)@.next_id),
    {
        proof {
            use_type_invariant(&*self);
        }
        let ghost before = row_views(self.rows@);
        let ghost bound = self.next_id as int;
        let count = self.rows.len();
        assert(before.len() == count);
        let mut rows: Vec<StoredRow> = Vec::new();
        core::mem::swap(&mut self.rows, &mut rows);
        assert(row_views(self.rows@) =~= Seq::empty());
        let mut rows_affected: usize = 0;
        let mut i: usize = 0;
        while i < rows.len()
            invariant
                i <= rows.len(),
                before.len() <= usize::MAX,
                i + rows_affected <= before.len(),
                rows.len() + rows_affected == before.len(),
                row_views(rows@).take(i as int) == remaining(
                    before.take(i + rows_affected),
                    key@,
                ),
                row_views(rows@).skip(i as int) == before.skip(i + rows_affected),
            decreases rows.len() - i,
        {
            let ghost now = row_views(rows@);
            let ghost done = i + rows_affected;
            proof {
                assert(now.skip(i as int)[0] == before.skip(done)[0]);
                assert(now[i as int] == rows@[i as int]@);
                assert(before.take(done + 1).drop_last() =~= before.take(done));
                assert(before.take(done + 1).last() == before[done]);
            }
            if row_matches(&rows[i], key) {
                let _ = rows.remove(i);
                rows_affected = rows_affected + 1;
                proof {
                    let next = row_views(rows@);
                    assert(next.take(i as int) =~= now.take(i as int));
                    assert(next.skip(i as int) =~= now.skip(i as int).skip(1));
                    assert(before.skip(done).skip(1) =~= before.skip(done + 1));
                }
            } else {
                i = i + 1;
                proof {
                    assert(now.take(i as int) =~= now.take(i - 1).push(now[i - 1]));
                    assert(now.skip(i as int) =~= now.skip(i - 1).skip(1));
                    assert(before.skip(done).skip(1) =~= before.skip(done + 1));
                }
            }
        }
        proof {
            assert(row_views(rows@).take(i as int) =~= row_views(rows@));
            assert(before.take(i + rows_affected) =~= before);
            lemma_remaining_ids(before, key@, bound);
            lemma_remaining(before, key@);
        }
        core::mem::swap(&mut self.rows, &mut rows);
        proof {
            assert(before == old(self)@.rows);
            assert(self@.rows == remaining(before, key@));
            if forall|i: int| 0 <= i < before.len() ==> !key_matches(#[trigger] before[i], key@) {
                assert(self@ == old(self)@);
            }
        }
        rows_affected
    }
}

} // verus!
