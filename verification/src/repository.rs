//! The embedding repository: what is written to the table of records and
//! what is made of the rows that are read from it.
//!
//! The table maps an identity to a reference, a text and a blob. Running the
//! statements against a storage engine is the caller's part; the rules are
//! here: which row stands for a record, which record a row stands for, and
//! that a row which cannot be read ends the whole read.
use vstd::prelude::*;
use crate::codec::{blob_of, decode, decoded, encode, lemma_round_trip, CorruptVector};
use crate::error::{EngineError, StorageFault};
use crate::record::{EmbeddingRecord, RecordView};

verus! {

/// A row to be written: the store gives it its identity.
#[derive(Clone, Debug, PartialEq, Eq)]
pub struct NewRow {
    pub reference: String,
    pub text: String,
    /// The encoded vector.
    pub embedding: Vec<u8>,
}

/// What a `NewRow` holds, as plain sequences.
pub struct NewRowView {
    pub reference: Seq<char>,
    pub text: Seq<char>,
    pub embedding: Seq<u8>,
}

impl View for NewRow {
    type V = NewRowView;

    open spec fn view(&self) -> NewRowView {
        NewRowView { reference: self.reference@, text: self.text@, embedding: self.embedding@ }
    }
}

/// A row as it was read: a column that held no value of its type is absent.
#[derive(Clone, Debug, PartialEq, Eq)]
pub struct StoredRow {
    pub id: i64,
    pub reference: Option<String>,
    pub text: Option<String>,
    pub embedding: Option<Vec<u8>>,
}

/// What a `StoredRow` holds, as plain sequences.
pub struct StoredRowView {
    pub id: i64,
    pub reference: Option<Seq<char>>,
    pub text: Option<Seq<char>>,
    pub embedding: Option<Seq<u8>>,
}

impl View for StoredRow {
    type V = StoredRowView;

    open spec fn view(&self) -> StoredRowView {
        StoredRowView {
            id: self.id,
            reference: match self.reference {
                Some(s) => Some(s@),
                None => None,
            },
            text: match self.text {
                Some(s) => Some(s@),
                None => None,
            },
            embedding: match self.embedding {
                Some(b) => Some(b@),
                None => None,
            },
        }
    }
}

/// The views of a run of rows.
pub open spec fn row_views(rows: Seq<StoredRow>) -> Seq<StoredRowView> {
    Seq::new(rows.len(), |i: int| rows[i]@)
}

/// The row that stands for a text and its vector in a store of the given
/// dimension, or the reason why there is none: a record without text, or
/// with a vector of another length, is never written.
pub open spec fn row_to_write(
    reference: Seq<char>,
    text: Seq<char>,
    vector: Seq<u32>,
    dimension: nat,
) -> Result<NewRowView, EngineError> {
    if text.len() == 0 {
        Err(EngineError::StorageError { row: None, cause: StorageFault::EmptyText })
    } else if vector.len() != dimension {
        Err(EngineError::StorageError { row: None, cause: StorageFault::WrongDimension })
    } else {
        Ok(NewRowView { reference: reference, text: text, embedding: blob_of(vector) })
    }
}

/// The record that a row stands for in a store of the given dimension, or
/// the reason why it stands for none.
pub open spec fn row_read(row: StoredRowView, dimension: nat) -> Result<RecordView, EngineError> {
    match row.embedding {
        None => Err(
            EngineError::CorruptVector { row_id: row.id, defect: CorruptVector::Malformed },
        ),
        Some(bytes) => match decoded(bytes, dimension) {
            Err(fault) => Err(EngineError::CorruptVector { row_id: row.id, defect: fault }),
            Ok(vector) => match row.reference {
                None => Err(
                    EngineError::StorageError {
                        row: Some(row.id),
                        cause: StorageFault::MissingReference,
                    },
                ),
                Some(reference) => match row.text {
                    None => Err(
                        EngineError::StorageError {
                            row: Some(row.id),
                            cause: StorageFault::MissingText,
                        },
                    ),
                    Some(text) => Ok(
                        RecordView {
                            id: Some(row.id),
                            reference: reference,
                            text: text,
                            vector: Some(vector),
                        },
                    ),
                },
            },
        },
    }
}

/// The row as the table holds it after `row` was written under `id`.
pub open spec fn written(id: i64, row: NewRowView) -> StoredRowView {
    StoredRowView {
        id: id,
        reference: Some(row.reference),
        text: Some(row.text),
        embedding: Some(row.embedding),
    }
}

/// What is written is what is read: the row made for a text and its vector,
/// read back under the identity it was given, stands for the record with
/// that identity, reference, text and vector.
pub proof fn lemma_written_row_reads_back(
    id: i64,
    reference: Seq<char>,
    text: Seq<char>,
    vector: Seq<u32>,
    dimension: nat,
)
    requires
        row_to_write(reference, text, vector, dimension) is Ok,
        dimension <= u64::MAX,
    ensures
        row_read(written(id, row_to_write(reference, text, vector, dimension).unwrap()), dimension)
            == Ok::<RecordView, EngineError>(
            RecordView { id: Some(id), reference: reference, text: text, vector: Some(vector) },
        ),
{
    lemma_round_trip(vector);
}

/// Whether `index` is the first row that stands for no record, and `error`
/// the reason.
pub open spec fn is_first_unreadable(
    rows: Seq<StoredRowView>,
    dimension: nat,
    index: int,
    error: EngineError,
) -> bool {
    &&& 0 <= index < rows.len()
    &&& row_read(rows[index], dimension) == Err::<RecordView, EngineError>(error)
    &&& forall|i: int| 0 <= i < index ==> (#[trigger] row_read(rows[i], dimension)) is Ok
}

/// Makes the row for a text and its vector.
///
/// Fails with `StorageError`, and makes no row, when the text is empty or the
/// vector has another length than the store's dimension.
pub fn insert_row(reference: String, text: String, vector: &Vec<u32>, dimension: usize) -> (r:
    Result<NewRow, EngineError>)
    ensures
        match r {
            Ok(row) => row_to_write(reference@, text@, vector@, dimension as nat) == Ok::<
                NewRowView,
                EngineError,
            >(row@),
            Err(e) => row_to_write(reference@, text@, vector@, dimension as nat) == Err::<
                NewRowView,
                EngineError,
            >(e),
        },
        vector@.len() != dimension ==> r is Err,
{
    if text.as_str().is_empty() {
        return Err(EngineError::StorageError { row: None, cause: StorageFault::EmptyText });
    }
    if vector.len() != dimension {
        return Err(EngineError::StorageError { row: None, cause: StorageFault::WrongDimension });
    }
    let embedding = encode(vector);
    Ok(NewRow { reference, text, embedding })
}

/// Reads one row.
///
/// Fails with `CorruptVector` when the row holds no blob, or one that does
/// not decode to a vector of the store's dimension, and with `StorageError`
/// when it holds no reference or no text. The error names the row.
pub fn read_row(row: &StoredRow, dimension: usize) -> (r: Result<EmbeddingRecord, EngineError>)
    ensures
        match r {
            Ok(record) => row_read(row@, dimension as nat) == Ok::<RecordView, EngineError>(
                record@,
            ),
            Err(e) => row_read(row@, dimension as nat) == Err::<RecordView, EngineError>(e),
        },
{
    let vector = match &row.embedding {
        None => {
            return Err(
                EngineError::CorruptVector { row_id: row.id, defect: CorruptVector::Malformed },
            );
        },
        Some(bytes) => match decode(bytes.as_slice(), dimension) {
            Err(fault) => {
                return Err(EngineError::CorruptVector { row_id: row.id, defect: fault });
            },
            Ok(vector) => vector,
        },
    };
    let reference = match &row.reference {
        None => {
            return Err(
                EngineError::StorageError {
                    row: Some(row.id),
                    cause: StorageFault::MissingReference,
                },
            );
        },
        Some(s) => s.clone(),
    };
    let text = match &row.text {
        None => {
            return Err(
                EngineError::StorageError { row: Some(row.id), cause: StorageFault::MissingText },
            );
        },
        Some(s) => s.clone(),
    };
    Ok(EmbeddingRecord { id: Some(row.id), reference, text, vector: Some(vector) })
}

/// Reads every row, in order.
///
/// Either every row stands for a record, and all of them are returned, or
/// the read fails with the error of the first row that does not: no row is
/// left out in silence.
pub fn read_rows(rows: &Vec<StoredRow>, dimension: usize) -> (r: Result<
    Vec<EmbeddingRecord>,
    EngineError,
>)
    ensures
        match r {
            Ok(records) => {
                &&& records@.len() == rows@.len()
                &&& forall|i: int|
                    0 <= i < rows@.len() ==> row_read(#[trigger] rows@[i]@, dimension as nat)
                        == Ok::<RecordView, EngineError>(records@[i]@)
            },
            Err(e) => exists|index: int|
                is_first_unreadable(row_views(rows@), dimension as nat, index, e),
        },
{
    let mut records: Vec<EmbeddingRecord> = Vec::new();
    let mut i: usize = 0;
    while i < rows.len()
        invariant
            i <= rows.len(),
            records@.len() == i,
            forall|k: int|
                0 <= k < i ==> row_read(#[trigger] rows@[k]@, dimension as nat) == Ok::<
                    RecordView,
                    EngineError,
                >(records@[k]@),
        decreases rows.len() - i,
    {
        match read_row(&rows[i], dimension) {
            Ok(record) => {
                records.push(record);
            },
            Err(e) => {
                proof {
                    let views = row_views(rows@);
                    assert(views[i as int] == rows@[i as int]@);
                    assert forall|k: int| 0 <= k < i implies (#[trigger] row_read(
                        views[k],
                        dimension as nat,
                    )) is Ok by {
                        assert(views[k] == rows@[k]@);
                    }
                    assert(is_first_unreadable(views, dimension as nat, i as int, e));
                }
                return Err(e);
            },
        }
        i = i + 1;
    }
    Ok(records)
}

/// The key of a delete: the identity that the store gave, or the reference
/// that the caller chose.
#[derive(Clone, Debug, PartialEq, Eq)]
pub enum DeleteKey {
    Id(i64),
    Reference(String),
}

/// What a `DeleteKey` holds, as plain values.
pub enum KeyView {
    Id(i64),
    Reference(Seq<char>),
}

impl View for DeleteKey {
    type V = KeyView;

    open spec fn view(&self) -> KeyView {
        match self {
            DeleteKey::Id(id) => KeyView::Id(*id),
            DeleteKey::Reference(reference) => KeyView::Reference(reference@),
        }
    }
}

/// Whether a delete by `key` takes the row.
pub open spec fn key_matches(row: StoredRowView, key: KeyView) -> bool {
    match key {
        KeyView::Id(id) => row.id == id,
        KeyView::Reference(reference) => row.reference == Some(reference),
    }
}

/// The rows that a delete by `key` leaves, in their order.
pub open spec fn remaining(rows: Seq<StoredRowView>, key: KeyView) -> Seq<StoredRowView>
    decreases rows.len(),
{
    if rows.len() == 0 {
        rows
    } else if key_matches(rows.last(), key) {
        remaining(rows.drop_last(), key)
    } else {
        remaining(rows.drop_last(), key).push(rows.last())
    }
}

/// Tells whether a delete by `key` takes the row.
pub fn row_matches(row: &StoredRow, key: &DeleteKey) -> (r: bool)
    ensures
        r == key_matches(row@, key@),
{
    match key {
        DeleteKey::Id(id) => row.id == *id,
        DeleteKey::Reference(reference) => match &row.reference {
            Some(held) => {
                let same = *held == *reference;
                assert(same == (row@.reference == Some(reference@)));
                same
            },
            None => false,
        },
    }
}

/// What a delete reports, given the store's answer: the number of rows that
/// the statement took, or `None` for a failure.
///
/// A delete that took no row is no failure: it reports zero rows. Only a
/// failure of the store is reported as `StorageError`.
pub fn delete_outcome(answer: Option<u64>) -> (r: Result<u64, EngineError>)
    ensures
        r == (match answer {
            Some(rows_affected) => Ok::<u64, EngineError>(rows_affected),
            None => Err::<u64, EngineError>(
                EngineError::StorageError { row: None, cause: StorageFault::Unavailable },
            ),
        }),
        answer == Some(0u64) ==> r == Ok::<u64, EngineError>(0),
{
    match answer {
        Some(rows_affected) => Ok(rows_affected),
        None => Err(EngineError::StorageError { row: None, cause: StorageFault::Unavailable }),
    }
}

/// A delete leaves nothing that its key matches, and takes nothing else:
/// where no row matches, every row stays.
pub proof fn lemma_remaining(rows: Seq<StoredRowView>, key: KeyView)
    ensures
        remaining(rows, key).len() <= rows.len(),
        forall|k: int|
            0 <= k < remaining(rows, key).len() ==> !key_matches(
                #[trigger] remaining(rows, key)[k],
                key,
            ),
        (forall|i: int| 0 <= i < rows.len() ==> !key_matches(#[trigger] rows[i], key))
            <==> remaining(rows, key) == rows,
    decreases rows.len(),
{
    if rows.len() > 0 {
        let earlier = rows.drop_last();
        lemma_remaining(earlier, key);
        if key_matches(rows.last(), key) {
            assert(key_matches(rows[rows.len() - 1], key));
        } else {
            if forall|i: int| 0 <= i < rows.len() ==> !key_matches(#[trigger] rows[i], key) {
                assert forall|i: int| 0 <= i < earlier.len() implies !key_matches(
                    #[trigger] earlier[i],
                    key,
                ) by {
                    assert(earlier[i] == rows[i]);
                }
                assert(remaining(rows, key) =~= rows);
            }
            if remaining(rows, key) == rows {
                assert(remaining(earlier, key).len() + 1 == rows.len());
                assert(remaining(earlier, key) =~= remaining(rows, key).drop_last());
                assert forall|i: int| 0 <= i < rows.len() implies !key_matches(
                    #[trigger] rows[i],
                    key,
                ) by {
                    if i < earlier.len() {
                        assert(earlier[i] == rows[i]);
                    }
                }
            }
        }
    }
}

} // verus!
