//! What the library asks of the embedding generator and what it makes of the
//! answer.
//!
//! The generator is given non-empty texts and answers with one vector for
//! each, in the same order, or fails. Calling it is the caller's part; the
//! rules are here: which texts may be sent, and which answers are accepted.
//! An answer is taken whole or not at all.
use vstd::prelude::*;
use crate::error::{EngineError, GenerationFault};
use crate::record::{Passage, PassageView};
use crate::codec::encode;
use crate::repository::{row_to_write, NewRow, NewRowView};

verus! {

/// The views of a run of passages.
pub open spec fn passage_views(passages: Seq<Passage>) -> Seq<PassageView> {
    Seq::new(passages.len(), |i: int| passages[i]@)
}

/// The views of a run of vectors.
pub open spec fn vector_views(vectors: Seq<Vec<u32>>) -> Seq<Seq<u32>> {
    Seq::new(vectors.len(), |i: int| vectors[i]@)
}

/// The view of an answer of the generator.
pub open spec fn answer_view(answer: Option<Vec<Vec<u32>>>) -> Option<Seq<Seq<u32>>> {
    match answer {
        Some(vectors) => Some(vector_views(vectors@)),
        None => None,
    }
}

/// Whether `index` is the first passage without text.
pub open spec fn is_first_empty(passages: Seq<PassageView>, index: int) -> bool {
    &&& 0 <= index < passages.len()
    &&& passages[index].text.len() == 0
    &&& forall|i: int| 0 <= i < index ==> (#[trigger] passages[i]).text.len() > 0
}

/// Whether every passage has a text.
pub open spec fn all_have_text(passages: Seq<PassageView>) -> bool {
    forall|i: int| 0 <= i < passages.len() ==> (#[trigger] passages[i]).text.len() > 0
}

/// Whether the answer holds `expected` vectors, each of the given dimension.
pub open spec fn is_usable(answer: Option<Seq<Seq<u32>>>, expected: nat, dimension: nat) -> bool {
    &&& answer matches Some(vectors)
    &&& vectors.len() == expected
    &&& forall|i: int| 0 <= i < vectors.len() ==> (#[trigger] vectors[i]).len() == dimension
}

/// Whether `fault` says what is wrong with the answer: that there is none,
/// else that it holds another number of vectors than `expected`, else the
/// first vector that has not the given dimension.
pub open spec fn is_answer_fault(
    answer: Option<Seq<Seq<u32>>>,
    expected: nat,
    dimension: nat,
    fault: GenerationFault,
) -> bool {
    match fault {
        GenerationFault::Unavailable => answer is None,
        GenerationFault::WrongCount { expected: wanted, found } => {
            &&& answer matches Some(vectors)
            &&& vectors.len() != expected
            &&& wanted == expected
            &&& found == vectors.len()
        },
        GenerationFault::WrongDimension { index } => {
            &&& answer matches Some(vectors)
            &&& vectors.len() == expected
            &&& index < vectors.len()
            &&& vectors[index as int].len() != dimension
            &&& forall|i: int| 0 <= i < index ==> (#[trigger] vectors[i]).len() == dimension
        },
        GenerationFault::EmptyText { .. } => false,
    }
}

/// Checks an answer of the generator against the number of texts that were
/// sent and the store's dimension.
pub fn check_answer(answer: &Option<Vec<Vec<u32>>>, expected: usize, dimension: usize) -> (r:
    Result<(), GenerationFault>)
    ensures
        match r {
            Ok(_) => is_usable(answer_view(*answer), expected as nat, dimension as nat),
            Err(fault) => is_answer_fault(
                answer_view(*answer),
                expected as nat,
                dimension as nat,
                fault,
            ),
        },
{
    match answer {
        None => Err(GenerationFault::Unavailable),
        Some(vectors) => {
            if vectors.len() != expected {
                return Err(GenerationFault::WrongCount { expected, found: vectors.len() });
            }
            let ghost views = vector_views(vectors@);
            let mut i: usize = 0;
            while i < vectors.len()
                invariant
                    i <= vectors.len(),
                    vectors.len() == expected,
                    views == vector_views(vectors@),
                    answer_view(*answer) == Some(views),
                    forall|k: int| 0 <= k < i ==> (#[trigger] views[k]).len() == dimension,
                decreases vectors.len() - i,
            {
                if vectors[i].len() != dimension {
                    assert(views[i as int] == vectors@[i as int]@);
                    return Err(GenerationFault::WrongDimension { index: i });
                }
                assert(views[i as int] == vectors@[i as int]@);
                i = i + 1;
            }
            Ok(())
        },
    }
}

/// The texts to send to the generator for a batch of passages, in order.
///
/// Fails with `GenerationError`, naming the first passage without text, when
/// there is one: the generator is given non-empty texts only.
pub fn texts_of(passages: &Vec<Passage>) -> (r: Result<Vec<String>, EngineError>)
    ensures
        match r {
            Ok(texts) => {
                &&& all_have_text(passage_views(passages@))
                &&& texts@.len() == passages@.len()
                &&& forall|i: int|
                    0 <= i < texts@.len() ==> (#[trigger] texts@[i])@ == passages@[i].text@
            },
            Err(e) => e matches EngineError::GenerationError {
                fault: GenerationFault::EmptyText { index },
            } && is_first_empty(passage_views(passages@), index as int),
        },
{
    let ghost views = passage_views(passages@);
    let mut texts: Vec<String> = Vec::new();
    let mut i: usize = 0;
    while i < passages.len()
        invariant
            i <= passages.len(),
            views == passage_views(passages@),
            texts@.len() == i,
            forall|k: int| 0 <= k < i ==> (#[trigger] views[k]).text.len() > 0,
            forall|k: int| 0 <= k < i ==> (#[trigger] texts@[k])@ == passages@[k].text@,
        decreases passages.len() - i,
    {
        assert(views[i as int] == passages@[i as int]@);
        if passages[i].text.as_str().is_empty() {
            return Err(
                EngineError::GenerationError { fault: GenerationFault::EmptyText { index: i } },
            );
        }
        texts.push(passages[i].text.clone());
        i = i + 1;
    }
    Ok(texts)
}

/// The vector of a query, from the generator's answer to the one query text.
///
/// Fails with `GenerationError` when there is no answer, when it holds
/// another number of vectors than one, or when its vector has not the store's
/// dimension.
pub fn query_vector(answer: Option<Vec<Vec<u32>>>, dimension: usize) -> (r: Result<
    Vec<u32>,
    EngineError,
>)
    ensures
        match r {
            Ok(vector) => is_usable(answer_view(answer), 1, dimension as nat) && answer_view(
                answer,
            ).unwrap()[0] == vector@,
            Err(e) => e matches EngineError::GenerationError { fault } && is_answer_fault(
                answer_view(answer),
                1,
                dimension as nat,
                fault,
            ),
        },
{
    match check_answer(&answer, 1, dimension) {
        Err(fault) => Err(EngineError::GenerationError { fault }),
        Ok(_) => {
            let mut vectors = answer.unwrap();
            assert(vector_views(vectors@)[0] == vectors@[0]@);
            let vector = vectors.remove(0);
            Ok(vector)
        },
    }
}

/// Whether `rows` are the rows to write for the passages and their vectors.
pub open spec fn are_rows_of(
    rows: Seq<NewRowView>,
    passages: Seq<PassageView>,
    vectors: Seq<Seq<u32>>,
    dimension: nat,
) -> bool {
    &&& rows.len() == passages.len()
    &&& forall|i: int|
        0 <= i < rows.len() ==> row_to_write(
            passages[i].reference,
            passages[i].text,
            vectors[i],
            dimension,
        ) == Ok::<NewRowView, EngineError>(#[trigger] rows[i])
}

/// The views of a run of rows to write.
pub open spec fn new_row_views(rows: Seq<NewRow>) -> Seq<NewRowView> {
    Seq::new(rows.len(), |i: int| rows[i]@)
}

/// Plans the writes of a batch: one row for each passage, made of the
/// passage and the vector that the generator answered for it.
///
/// Fails with `GenerationError`, and plans no write at all, when a passage
/// has no text (the first such is named), or when the answer is not usable:
/// missing, of another length than the batch, or with a vector that has not
/// the store's dimension.
pub fn plan_batch(passages: &Vec<Passage>, answer: &Option<Vec<Vec<u32>>>, dimension: usize) -> (r:
    Result<Vec<NewRow>, EngineError>)
    ensures
        match r {
            Ok(rows) => {
                &&& all_have_text(passage_views(passages@))
                &&& is_usable(answer_view(*answer), passages@.len(), dimension as nat)
                &&& are_rows_of(
                    new_row_views(rows@),
                    passage_views(passages@),
                    answer_view(*answer).unwrap(),
                    dimension as nat,
                )
            },
            Err(e) => e matches EngineError::GenerationError { fault } && (match fault {
                GenerationFault::EmptyText { index } => is_first_empty(
                    passage_views(passages@),
                    index as int,
                ),
                _ => all_have_text(passage_views(passages@)) && is_answer_fault(
                    answer_view(*answer),
                    passages@.len(),
                    dimension as nat,
                    fault,
                ),
            }),
        },
{
    match texts_of(passages) {
        Err(e) => {
            return Err(e);
        },
        Ok(_) => {},
    }
    match check_answer(answer, passages.len(), dimension) {
        Err(fault) => {
            return Err(EngineError::GenerationError { fault });
        },
        Ok(_) => {},
    }
    let vectors = match answer {
        Some(vectors) => vectors,
        None => {
            return Err(EngineError::GenerationError { fault: GenerationFault::Unavailable });
        },
    };
    let ghost views = passage_views(passages@);
    let ghost answers = vector_views(vectors@);
    let mut rows: Vec<NewRow> = Vec::new();
    let mut i: usize = 0;
    while i < passages.len()
        invariant
            i <= passages.len(),
            vectors.len() == passages.len(),
            views == passage_views(passages@),
            answers == vector_views(vectors@),
            all_have_text(views),
            is_usable(Some(answers), passages@.len(), dimension as nat),
            rows@.len() == i,
            forall|k: int|
                0 <= k < i ==> row_to_write(
                    views[k].reference,
                    views[k].text,
                    answers[k],
                    dimension as nat,
                ) == Ok::<NewRowView, EngineError>((#[trigger] rows@[k])@),
        decreases passages.len() - i,
    {
        assert(views[i as int] == passages@[i as int]@);
        assert(answers[i as int] == vectors@[i as int]@);
        let embedding = encode(&vectors[i]);
        rows.push(
            NewRow {
                reference: passages[i].reference.clone(),
                text: passages[i].text.clone(),
                embedding,
            },
        );
        i = i + 1;
    }
    proof {
        let made = new_row_views(rows@);
        assert forall|k: int| 0 <= k < made.len() implies row_to_write(
            views[k].reference,
            views[k].text,
            answers[k],
            dimension as nat,
        ) == Ok::<NewRowView, EngineError>(#[trigger] made[k]) by {
            assert(made[k] == rows@[k]@);
        }
    }
    Ok(rows)
}

} // verus!
