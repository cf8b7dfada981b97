//! Writing a batch of rows, one after the other.
//!
//! Every row is written by a statement of its own and nothing is taken back,
//! so a batch that fails leaves the rows that were written before the
//! failure: a prefix of the batch. The caller writes the rows; `BatchProgress`
//! decides after each answer of the store what comes next, and its report
//! says how many rows of how many were written, and with which identities.
use vstd::prelude::*;
use crate::error::{EngineError, StorageFault};

verus! {

/// What the caller is to do next with a batch.
#[derive(Clone, Copy, Debug, PartialEq, Eq, Structural)]
pub enum BatchStep {
    /// Write the row at this place of the batch and record the store's answer.
    Insert { index: usize },
    /// Write nothing more: every row is written, or one has failed.
    Finished,
}

/// How far the writing of a batch has come, as plain values.
pub struct ProgressView {
    /// Number of rows in the batch.
    pub requested: nat,
    /// The identities that the store gave to the rows written so far, in the
    /// order of the batch.
    pub stored: Seq<i64>,
    /// Whether a write has failed.
    pub failed: bool,
}

impl ProgressView {
    /// The progress of a batch of which nothing is written yet.
    pub open spec fn start(requested: nat) -> ProgressView {
        ProgressView { requested: requested, stored: Seq::empty(), failed: false }
    }

    /// What the caller is to do next.
    pub open spec fn next_step(self) -> BatchStep {
        if !self.failed && self.stored.len() < self.requested {
            BatchStep::Insert { index: self.stored.len() as usize }
        } else {
            BatchStep::Finished
        }
    }

    /// The progress after the store answered the write that was asked for:
    /// with the new row's identity, or with a failure (`None`). An answer that
    /// was not asked for changes nothing.
    pub open spec fn after(self, answer: Option<i64>) -> ProgressView {
        if self.next_step() == BatchStep::Finished {
            self
        } else {
            match answer {
                Some(id) => ProgressView { stored: self.stored.push(id), ..self },
                None => ProgressView { failed: true, ..self },
            }
        }
    }

    /// The progress after a run of answers, from the first on.
    pub open spec fn after_all(self, answers: Seq<Option<i64>>) -> ProgressView
        decreases answers.len(),
    {
        if answers.len() == 0 {
            self
        } else {
            self.after_all(answers.drop_last()).after(answers.last())
        }
    }

    /// Whether the counts agree: no more rows are written than were asked
    /// for, and a batch that failed is not complete.
    pub open spec fn consistent(self) -> bool {
        &&& self.stored.len() <= self.requested
        &&& self.failed ==> self.stored.len() < self.requested
    }
}

/// A batch that fails leaves a prefix written. Whatever the store answers,
/// the rows written are those whose writes were answered with an identity
/// before the first failure, in the order of the batch and with those
/// identities; after a failure nothing more is written; and without a
/// failure the batch goes on until every answer is used or every row is
/// written.
pub proof fn lemma_batch_keeps_prefix(requested: nat, answers: Seq<Option<i64>>)
    ensures
        ({
            let end = ProgressView::start(requested).after_all(answers);
            let written = end.stored.len();
            &&& end.requested == requested
            &&& end.consistent()
            &&& written <= answers.len()
            &&& forall|i: int| 0 <= i < written ==> answers[i] == Some(#[trigger] end.stored[i])
            &&& end.failed ==> written < answers.len() && answers[written as int] is None
            &&& !end.failed ==> written == answers.len() || written == requested
        }),
    decreases answers.len(),
{
    if answers.len() > 0 {
        let earlier = answers.drop_last();
        lemma_batch_keeps_prefix(requested, earlier);
        let before = ProgressView::start(requested).after_all(earlier);
        let end = before.after(answers.last());
        assert(end == ProgressView::start(requested).after_all(answers));
        assert forall|i: int| 0 <= i < end.stored.len() implies answers[i] == Some(
            #[trigger] end.stored[i],
        ) by {
            if i < before.stored.len() {
                assert(earlier[i] == answers[i]);
            }
        }
        if before.failed {
            assert(earlier[before.stored.len() as int] == answers[before.stored.len() as int]);
        }
    }
}

/// The outcome of a batch.
#[derive(Clone, Debug, PartialEq, Eq)]
pub struct BatchReport {
    /// Number of rows in the batch.
    pub requested: usize,
    /// The identities of the rows that were written, in the order of the
    /// batch: row `i` of the batch got `stored[i]`.
    pub stored: Vec<i64>,
    /// The failure that ended the batch, if one did.
    pub failure: Option<EngineError>,
}

/// How far the writing of a batch has come.
pub struct BatchProgress {
    requested: usize,
    stored: Vec<i64>,
    failed: bool,
}

impl View for BatchProgress {
    type V = ProgressView;

    closed spec fn view(&self) -> ProgressView {
        ProgressView { requested: self.requested as nat, stored: self.stored@, failed: self.failed }
    }
}

impl BatchProgress {
    #[verifier::type_invariant]
    spec fn counts_agree(self) -> bool {
        &&& self.stored@.len() <= self.requested
        &&& self.failed ==> self.stored@.len() < self.requested
    }

    /// Starts a batch of `requested` rows.
    pub fn new(requested: usize) -> (progress: BatchProgress)
        ensures
            progress@ == ProgressView::start(requested as nat),
    {
        BatchProgress { requested, stored: Vec::new(), failed: false }
    }

    /// What the caller is to do next: write the first row that is not yet
    /// written, unless all are written or a write has failed.
    pub fn next_step(&self) -> (step: BatchStep)
        ensures
            step == self@.next_step(),
            self@.consistent(),
    {
        proof {
            use_type_invariant(self);
        }
        if !self.failed && self.stored.len() < self.requested {
            BatchStep::Insert { index: self.stored.len() }
        } else {
            BatchStep::Finished
        }
    }

    /// Records the store's answer to the write that `next_step` asked for:
    /// the identity of the new row, or `None` for a failure.
    pub fn record(self, answer: Option<i64>) -> (next: BatchProgress)
        ensures
            next@ == self@.after(answer),
            next@.consistent(),
    {
        proof {
            use_type_invariant(&self);
        }
        let requested = self.requested;
        let failed = self.failed;
        let mut stored = self.stored;
        if !failed && stored.len() < requested {
            match answer {
                Some(id) => {
                    stored.push(id);
                    BatchProgress { requested, stored, failed }
                },
                None => BatchProgress { requested, stored, failed: true },
            }
        } else {
            BatchProgress { requested, stored, failed }
        }
    }

    /// The outcome so far: how many rows were asked for, the identities of
    /// those that were written, and the failure if a write failed.
    pub fn report(&self) -> (report: BatchReport)
        ensures
            report.requested == self@.requested,
            report.stored@ == self@.stored,
            report.stored@.len() <= report.requested,
            report.failure == (if self@.failed {
                Some(EngineError::StorageError { row: None, cause: StorageFault::Unavailable })
            } else {
                None
            }),
            self@.failed ==> report.stored@.len() < report.requested,
    {
        proof {
            use_type_invariant(self);
        }
        let mut stored: Vec<i64> = Vec::new();
        let mut i: usize = 0;
        while i < self.stored.len()
            invariant
                i <= self.stored.len(),
                stored@ == self.stored@.take(i as int),
            decreases self.stored.len() - i,
        {
            stored.push(self.stored[i]);
            assert(stored@ =~= self.stored@.take(i + 1));
            i = i + 1;
        }
        assert(stored@ =~= self.stored@);
        BatchReport {
            requested: self.requested,
            stored,
            failure: if self.failed {
                Some(EngineError::StorageError { row: None, cause: StorageFault::Unavailable })
            } else {
                None
            },
        }
    }
}

} // verus!
