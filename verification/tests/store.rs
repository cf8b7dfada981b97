use embeddings::codec::{encode, CorruptVector};
use embeddings::error::{EngineError, StorageFault};
use embeddings::record::EmbeddingRecord;
use embeddings::repository::DeleteKey;
use embeddings::similarity::{search, ScoredCandidate};
use embeddings::store::MemoryStore;

fn bits(values: &[f32]) -> Vec<u32> {
    values.iter().map(|x| x.to_bits()).collect()
}

fn filled() -> MemoryStore {
    let mut store = MemoryStore::new(2);
    assert_eq!(store.insert("a".to_string(), "first".to_string(), &bits(&[1.0, 0.0])), Ok(1));
    assert_eq!(store.insert("b".to_string(), "second".to_string(), &bits(&[0.0, 1.0])), Ok(2));
    assert_eq!(store.insert("a".to_string(), "third".to_string(), &bits(&[-1.0, 0.0])), Ok(3));
    store
}

fn references(store: &MemoryStore) -> Vec<String> {
    store.list_all().unwrap().into_iter().map(|r| r.reference).collect()
}

#[test]
fn new_store_is_empty() {
    let store = MemoryStore::new(384);
    assert_eq!(store.dimension(), 384);
    assert_eq!(store.len(), 0);
    assert_eq!(store.list_all(), Ok(Vec::new()));
}

#[test]
fn insert_assigns_ascending_identities() {
    let store = filled();
    assert_eq!(store.len(), 3);
    let records = store.list_all().unwrap();
    assert_eq!(
        records[1],
        EmbeddingRecord {
            id: Some(2),
            reference: "b".to_string(),
            text: "second".to_string(),
            vector: Some(bits(&[0.0, 1.0])),
        }
    );
    assert_eq!(records.iter().map(|r| r.id).collect::<Vec<_>>(), vec![Some(1), Some(2), Some(3)]);
}

#[test]
fn insert_of_other_dimension_changes_nothing() {
    let mut store = filled();
    let before = store.list_all().unwrap();
    assert_eq!(
        store.insert("x".to_string(), "fourth".to_string(), &bits(&[1.0, 0.0, 0.0])),
        Err(EngineError::StorageError { row: None, cause: StorageFault::WrongDimension })
    );
    assert_eq!(
        store.insert("x".to_string(), "fourth".to_string(), &bits(&[1.0])),
        Err(EngineError::StorageError { row: None, cause: StorageFault::WrongDimension })
    );
    assert_eq!(store.len(), 3);
    assert_eq!(store.list_all().unwrap(), before);
    assert_eq!(store.insert("x".to_string(), "fourth".to_string(), &bits(&[1.0, 1.0])), Ok(4));
}

#[test]
fn insert_of_empty_text_changes_nothing() {
    let mut store = filled();
    assert_eq!(
        store.insert("x".to_string(), String::new(), &bits(&[1.0, 0.0])),
        Err(EngineError::StorageError { row: None, cause: StorageFault::EmptyText })
    );
    assert_eq!(store.len(), 3);
}

#[test]
fn delete_of_unknown_reference_affects_no_row() {
    let mut store = filled();
    let before = store.list_all().unwrap();
    assert_eq!(store.delete(&DeleteKey::Reference("never stored".to_string())), 0);
    assert_eq!(store.delete(&DeleteKey::Id(99)), 0);
    assert_eq!(store.list_all().unwrap(), before);
    let mut empty = MemoryStore::new(2);
    assert_eq!(empty.delete(&DeleteKey::Reference("a".to_string())), 0);
}

#[test]
fn delete_by_reference_takes_every_match() {
    let mut store = filled();
    assert_eq!(store.delete(&DeleteKey::Reference("a".to_string())), 2);
    assert_eq!(references(&store), vec!["b"]);
    assert_eq!(store.delete(&DeleteKey::Reference("a".to_string())), 0);
}

#[test]
fn delete_by_identity_takes_one_row() {
    let mut store = filled();
    assert_eq!(store.delete(&DeleteKey::Id(1)), 1);
    let records = store.list_all().unwrap();
    assert_eq!(records.iter().map(|r| r.id).collect::<Vec<_>>(), vec![Some(2), Some(3)]);
    assert_eq!(records[1].reference, "a");
}

#[test]
fn identities_are_not_given_twice() {
    let mut store = filled();
    assert_eq!(store.delete(&DeleteKey::Id(3)), 1);
    assert_eq!(store.insert("c".to_string(), "again".to_string(), &bits(&[0.5, 0.5])), Ok(4));
}

#[test]
fn full_store_takes_no_more_rows() {
    let mut store = MemoryStore::starting_at(1, i64::MAX - 1);
    assert_eq!(store.insert("a".to_string(), "last".to_string(), &bits(&[1.0])), Ok(i64::MAX - 1));
    assert_eq!(
        store.insert("b".to_string(), "one too many".to_string(), &bits(&[1.0])),
        Err(EngineError::StorageError { row: None, cause: StorageFault::Full })
    );
    assert_eq!(store.insert_raw(None, None, None), None);
    assert_eq!(store.len(), 1);
    assert_eq!(
        store.insert("b".to_string(), "too long".to_string(), &bits(&[1.0, 2.0])),
        Err(EngineError::StorageError { row: None, cause: StorageFault::WrongDimension })
    );
}

#[test]
fn update_is_delete_and_insert() {
    let mut store = filled();
    assert_eq!(store.delete(&DeleteKey::Reference("b".to_string())), 1);
    assert_eq!(store.insert("b".to_string(), "second, revised".to_string(), &bits(&[0.6, 0.8])), Ok(4));
    let records = store.list_all().unwrap();
    assert_eq!(records.len(), 3);
    assert_eq!(records[2].text, "second, revised");
}

#[test]
fn list_all_fails_closed_on_corrupt_row() {
    let mut store = filled();
    assert_eq!(store.insert_raw(Some("d".to_string()), Some("fourth".to_string()), Some(vec![9, 9])), Some(4));
    assert_eq!(store.insert("e".to_string(), "fifth".to_string(), &bits(&[1.0, 1.0])), Ok(5));
    assert_eq!(store.len(), 5);
    assert_eq!(
        store.list_all(),
        Err(EngineError::CorruptVector { row_id: 4, defect: CorruptVector::Malformed })
    );
    assert_eq!(store.delete(&DeleteKey::Id(4)), 1);
    assert_eq!(store.list_all().unwrap().len(), 4);
}

#[test]
fn list_all_reports_row_of_other_dimension() {
    let mut store = filled();
    let blob = encode(&bits(&[1.0, 2.0, 3.0]));
    assert_eq!(store.insert_raw(Some("d".to_string()), Some("t".to_string()), Some(blob)), Some(4));
    assert_eq!(
        store.list_all(),
        Err(EngineError::CorruptVector { row_id: 4, defect: CorruptVector::WrongDimension })
    );
}

#[test]
fn list_all_reports_row_without_text() {
    let mut store = MemoryStore::new(1);
    let blob = encode(&bits(&[1.0]));
    assert_eq!(store.insert_raw(Some("d".to_string()), None, Some(blob)), Some(1));
    assert_eq!(
        store.list_all(),
        Err(EngineError::StorageError { row: Some(1), cause: StorageFault::MissingText })
    );
}

#[test]
fn corrupt_row_aborts_a_search() {
    let mut store = filled();
    store.insert_raw(Some("d".to_string()), Some("fourth".to_string()), None);
    let listed = store.list_all();
    assert_eq!(
        listed,
        Err(EngineError::CorruptVector { row_id: 4, defect: CorruptVector::Malformed })
    );
}

#[test]
fn stored_records_can_be_searched() {
    let store = filled();
    let query = [1.0f32, 0.0];
    let candidates: Vec<ScoredCandidate> = store
        .list_all()
        .unwrap()
        .into_iter()
        .map(|record| {
            let v: Vec<f32> = record.vector.as_ref().unwrap().iter().map(|b| f32::from_bits(*b)).collect();
            let dot: f32 = v.iter().zip(query.iter()).map(|(x, y)| x * y).sum();
            let norms = v.iter().map(|x| x * x).sum::<f32>().sqrt()
                * query.iter().map(|x| x * x).sum::<f32>().sqrt();
            ScoredCandidate { record, raw_score: (dot / norms).to_bits() }
        })
        .collect();
    let set = search("first", &bits(&query), &candidates).unwrap();
    let ids: Vec<Option<i64>> = set.results.iter().map(|r| r.record.id).collect();
    assert_eq!(ids, vec![Some(1), Some(2), Some(3)]);
    let scores: Vec<f32> = set.results.iter().map(|r| f32::from_bits(r.score)).collect();
    assert_eq!(scores, vec![1.0, 0.0, -1.0]);
    assert_eq!(set.results[0].record.text, "first");
}
