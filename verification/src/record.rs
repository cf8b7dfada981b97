//! The data model: passages, embedding records and similarity results.
//!
//! A vector is held as the 32-bit patterns of its single-precision elements.
use vstd::prelude::*;

verus! {

/// A text to be stored, with the label its owner knows it by.
#[derive(Clone, Debug, PartialEq, Eq)]
pub struct Passage {
    /// Label chosen by the caller; the store does not require it to be unique.
    pub reference: String,
    /// The text itself.
    pub text: String,
}

/// What a `Passage` holds, as plain sequences.
pub struct PassageView {
    pub reference: Seq<char>,
    pub text: Seq<char>,
}

impl View for Passage {
    type V = PassageView;

    open spec fn view(&self) -> PassageView {
        PassageView { reference: self.reference@, text: self.text@ }
    }
}

/// A text with its embedding.
#[derive(Clone, Debug, PartialEq, Eq)]
pub struct EmbeddingRecord {
    /// Identity given by the store; absent until the record is stored.
    pub id: Option<i64>,
    /// Label chosen by the caller.
    pub reference: String,
    /// The text that was embedded.
    pub text: String,
    /// The embedding; absent in records handed out as search results.
    pub vector: Option<Vec<u32>>,
}

/// What an `EmbeddingRecord` holds, as plain sequences.
pub struct RecordView {
    pub id: Option<i64>,
    pub reference: Seq<char>,
    pub text: Seq<char>,
    pub vector: Option<Seq<u32>>,
}

impl View for EmbeddingRecord {
    type V = RecordView;

    open spec fn view(&self) -> RecordView {
        RecordView {
            id: self.id,
            reference: self.reference@,
            text: self.text@,
            vector: match self.vector {
                Some(v) => Some(v@),
                None => None,
            },
        }
    }
}

/// One match of a search.
#[derive(Clone, Debug, PartialEq, Eq)]
pub struct SimilarityResult {
    /// The matched record, without its vector.
    pub record: EmbeddingRecord,
    /// Bit pattern of the cosine similarity; always a finite number.
    pub score: u32,
}

/// What a `SimilarityResult` holds, as plain values.
pub struct ResultView {
    pub record: RecordView,
    pub score: u32,
}

impl View for SimilarityResult {
    type V = ResultView;

    open spec fn view(&self) -> ResultView {
        ResultView { record: self.record@, score: self.score }
    }
}

/// The answer to a search.
#[derive(Clone, Debug, PartialEq, Eq)]
pub struct SimilarityResultSet {
    /// The text that was searched for.
    pub query_text: String,
    /// The matches, best first.
    pub results: Vec<SimilarityResult>,
}

/// What a `SimilarityResultSet` holds, as plain values.
pub struct ResultSetView {
    pub query_text: Seq<char>,
    pub results: Seq<ResultView>,
}

impl View for SimilarityResultSet {
    type V = ResultSetView;

    open spec fn view(&self) -> ResultSetView {
        ResultSetView {
            query_text: self.query_text@,
            results: Seq::new(self.results@.len(), |i: int| self.results@[i]@),
        }
    }
}

/// The record as it is handed out in a search result: without its vector.
pub open spec fn stripped(record: RecordView) -> RecordView {
    RecordView { id: record.id, reference: record.reference, text: record.text, vector: None }
}

impl EmbeddingRecord {
    /// A copy of the record without its vector.
    pub fn without_vector(&self) -> (r: EmbeddingRecord)
        ensures
            r@ == stripped(self@),
    {
        EmbeddingRecord {
            id: self.id,
            reference: self.reference.clone(),
            text: self.text.clone(),
            vector: None,
        }
    }
}

} // verus!
