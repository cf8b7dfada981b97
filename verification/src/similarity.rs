//! The similarity engine: from a query vector and scored candidates to the
//! ranked result set.
//!
//! The cosine of two vectors is floating-point arithmetic and is computed by
//! the caller, candidate by candidate. The engine checks that every candidate
//! has the query's dimension, settles each score (a zero vector scores zero,
//! and so does a cosine that came out as no finite number), ranks the
//! candidates by descending score, ties in the order in which they were read,
//! and hands each record out without its vector.
use vstd::prelude::*;
use crate::error::EngineError;
use crate::ranking::{is_ranking, lemma_ranking_exists, precedes, rank_order, ranking};
use crate::record::{
    stripped, EmbeddingRecord, RecordView, ResultSetView, ResultView, SimilarityResult,
    SimilarityResultSet,
};
use crate::score::{is_finite, is_zero_vector, order_key, settle_score, settled_score, ZERO};

verus! {

/// A stored record with the raw cosine that was computed for it.
#[derive(Clone, Debug, PartialEq, Eq)]
pub struct ScoredCandidate {
    /// The stored record, with its vector.
    pub record: EmbeddingRecord,
    /// Bit pattern of the cosine of the query and the record's vector.
    pub raw_score: u32,
}

/// What a `ScoredCandidate` holds, as plain values.
pub struct CandidateView {
    pub record: RecordView,
    pub raw_score: u32,
}

impl View for ScoredCandidate {
    type V = CandidateView;

    open spec fn view(&self) -> CandidateView {
        CandidateView { record: self.record@, raw_score: self.raw_score }
    }
}

/// The views of a run of candidates.
pub open spec fn candidate_views(candidates: Seq<ScoredCandidate>) -> Seq<CandidateView> {
    Seq::new(candidates.len(), |i: int| candidates[i]@)
}

/// The views of a run of records.
pub open spec fn record_views(records: Seq<EmbeddingRecord>) -> Seq<RecordView> {
    Seq::new(records.len(), |i: int| records[i]@)
}

/// The records of a run of candidates.
pub open spec fn records_of(candidates: Seq<CandidateView>) -> Seq<RecordView> {
    Seq::new(candidates.len(), |i: int| candidates[i].record)
}

/// Whether the record has a vector of the given dimension.
pub open spec fn has_dimension(record: RecordView, dimension: nat) -> bool {
    record.vector matches Some(v) && v.len() == dimension
}

/// Whether every record has a vector of the given dimension.
pub open spec fn dimensions_agree(records: Seq<RecordView>, dimension: nat) -> bool {
    forall|i: int| 0 <= i < records.len() ==> has_dimension(#[trigger] records[i], dimension)
}

/// Whether `index` is the first place whose record has no vector of the given
/// dimension.
pub open spec fn is_first_mismatch(records: Seq<RecordView>, dimension: nat, index: int) -> bool {
    &&& 0 <= index < records.len()
    &&& !has_dimension(records[index], dimension)
    &&& forall|i: int| 0 <= i < index ==> has_dimension(#[trigger] records[i], dimension)
}

/// The settled score of each candidate, in the order of the candidates.
pub open spec fn settled_scores(query: Seq<u32>, candidates: Seq<CandidateView>) -> Seq<u32> {
    Seq::new(
        candidates.len(),
        |i: int|
            settled_score(
                query,
                candidates[i].record.vector.unwrap(),
                candidates[i].raw_score,
            ),
    )
}

/// The result set of a search: the candidates by descending settled score,
/// ties in the order of the candidates, each record without its vector.
pub open spec fn ranked(query_text: Seq<char>, query: Seq<u32>, candidates: Seq<CandidateView>)
    -> ResultSetView {
    let scores = settled_scores(query, candidates);
    let order = ranking(scores);
    ResultSetView {
        query_text: query_text,
        results: Seq::new(
            candidates.len(),
            |k: int|
                ResultView {
                    record: stripped(candidates[order[k] as int].record),
                    score: scores[order[k] as int],
                },
        ),
    }
}

/// What a result set holds. It has one result for each candidate; the
/// results stand by descending score, and of two candidates with equal
/// scores the one that was read first stands first; every score is a
/// finite number; and a candidate whose vector is a zero vector, as every
/// candidate of a query that is one, has the score zero.
pub proof fn lemma_ranked(query_text: Seq<char>, query: Seq<u32>, candidates: Seq<CandidateView>)
    requires
        candidates.len() <= usize::MAX,
    ensures
        ({
            let set = ranked(query_text, query, candidates);
            let scores = settled_scores(query, candidates);
            let order = ranking(scores);
            &&& set.query_text == query_text
            &&& set.results.len() == candidates.len()
            &&& is_ranking(scores, order)
            &&& forall|k: int|
                0 <= k < set.results.len() ==> {
                    let at = order[k] as int;
                    &&& 0 <= at < candidates.len()
                    &&& (#[trigger] set.results[k]).record == stripped(candidates[at].record)
                    &&& set.results[k].score == settled_score(
                        query,
                        candidates[at].record.vector.unwrap(),
                        candidates[at].raw_score,
                    )
                    &&& is_finite(set.results[k].score)
                    &&& is_zero_vector(query) || is_zero_vector(
                        candidates[at].record.vector.unwrap(),
                    ) ==> set.results[k].score == ZERO
                }
            &&& forall|k: int, l: int|
                0 <= k < l < set.results.len() ==> order_key((#[trigger] set.results[k]).score)
                    >= order_key((#[trigger] set.results[l]).score)
            &&& forall|k: int, l: int|
                0 <= k < l < set.results.len() && order_key((#[trigger] set.results[k]).score)
                    == order_key((#[trigger] set.results[l]).score) ==> order[k] < order[l]
        }),
{
    let set = ranked(query_text, query, candidates);
    let scores = settled_scores(query, candidates);
    let order = ranking(scores);
    lemma_ranking_exists(scores);
    assert forall|k: int, l: int| 0 <= k < l < set.results.len() implies order_key(
        (#[trigger] set.results[k]).score,
    ) >= order_key((#[trigger] set.results[l]).score) && (order_key(set.results[k].score)
        == order_key(set.results[l].score) ==> order[k] < order[l]) by {
        assert(precedes(scores, order[k] as int, order[l] as int));
    }
}

/// Checks that every record has a vector of the query's dimension.
///
/// Fails with `DimensionMismatch` at the first record that has none.
pub fn check_dimensions(query: &Vec<u32>, records: &Vec<EmbeddingRecord>) -> (r: Result<
    (),
    EngineError,
>)
    ensures
        match r {
            Ok(_) => dimensions_agree(record_views(records@), query@.len()),
            Err(e) => e matches EngineError::DimensionMismatch { index } && is_first_mismatch(
                record_views(records@),
                query@.len(),
                index as int,
            ),
        },
{
    let mut i: usize = 0;
    while i < records.len()
        invariant
            i <= records.len(),
            forall|k: int|
                0 <= k < i ==> has_dimension(#[trigger] record_views(records@)[k], query@.len()),
        decreases records.len() - i,
    {
        if !of_dimension(&records[i], query.len()) {
            return Err(EngineError::DimensionMismatch { index: i });
        }
        i = i + 1;
    }
    Ok(())
}

fn of_dimension(record: &EmbeddingRecord, dimension: usize) -> (r: bool)
    ensures
        r == has_dimension(record@, dimension as nat),
{
    match &record.vector {
        Some(v) => v.len() == dimension,
        None => false,
    }
}

/// Ranks the candidates of a search.
///
/// Fails with `DimensionMismatch` at the first candidate that has no vector
/// of the query's dimension; nothing is cut or filled up to make one fit.
/// Otherwise returns every candidate once, by descending settled score, ties
/// in the order of `candidates`, each record without its vector.
pub fn search(query_text: &str, query: &Vec<u32>, candidates: &Vec<ScoredCandidate>) -> (r: Result<
    SimilarityResultSet,
    EngineError,
>)
    ensures
        match r {
            Ok(set) => {
                &&& dimensions_agree(records_of(candidate_views(candidates@)), query@.len())
                &&& set@ == ranked(query_text@, query@, candidate_views(candidates@))
            },
            Err(e) => e matches EngineError::DimensionMismatch { index } && is_first_mismatch(
                records_of(candidate_views(candidates@)),
                query@.len(),
                index as int,
            ),
        },
{
    let ghost views = candidate_views(candidates@);
    let mut scores: Vec<u32> = Vec::new();
    let mut i: usize = 0;
    while i < candidates.len()
        invariant
            i <= candidates.len(),
            views == candidate_views(candidates@),
            scores.len() == i,
            forall|k: int|
                0 <= k < i ==> has_dimension(#[trigger] records_of(views)[k], query@.len()),
            forall|k: int| 0 <= k < i ==> scores@[k] == settled_scores(query@, views)[k],
        decreases candidates.len() - i,
    {
        match &candidates[i].record.vector {
            Some(v) => {
                if v.len() != query.len() {
                    return Err(EngineError::DimensionMismatch { index: i });
                }
                scores.push(settle_score(query, v, candidates[i].raw_score));
            },
            None => {
                return Err(EngineError::DimensionMismatch { index: i });
            },
        }
        i = i + 1;
    }
    assert(scores@ =~= settled_scores(query@, views));
    let order = rank_order(&scores);
    let mut results: Vec<SimilarityResult> = Vec::new();
    let mut k: usize = 0;
    while k < order.len()
        invariant
            k <= order.len(),
            order.len() == candidates.len(),
            views == candidate_views(candidates@),
            scores@ == settled_scores(query@, views),
            order@ == ranking(scores@),
            is_ranking(scores@, order@),
            results.len() == k,
            forall|m: int|
                0 <= m < k ==> (#[trigger] results@[m])@ == ranked(
                    query_text@,
                    query@,
                    views,
                ).results[m],
        decreases order.len() - k,
    {
        let at = order[k];
        assert(at < scores.len());
        results.push(
            SimilarityResult { record: candidates[at].record.without_vector(), score: scores[at] },
        );
        k = k + 1;
    }
    let set = SimilarityResultSet { query_text: query_text.to_owned(), results };
    assert(set@.results =~= ranked(query_text@, query@, views).results);
    Ok(set)
}

} // verus!
