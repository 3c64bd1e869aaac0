//! Per-project write outcomes and the run summary.
//!
//! Every project's update attempt ends in exactly one outcome, and a
//! failure never aborts the run: each outcome is recorded and the run
//! carries on with the next project (per-item isolation, chosen uniformly
//! for every discovery mode). The final summary counts the outcomes so an
//! operator can tell updated, skipped and failed projects apart.

use vstd::prelude::*;

verus! {

/// What one project's update attempt ended in.
pub enum UpdateOutcome {
    /// The write returned a success status.
    Updated,
    /// The write returned a non-success status; the response body is kept
    /// for diagnosis.
    Rejected { status: u16, body: String },
    /// The request never produced a response; the transport error's text
    /// is kept for diagnosis.
    TransportFailed { detail: String },
    /// The existence check found no variable under the key, so the
    /// project was left alone.
    SkippedMissing,
}

/// Whether an HTTP status reports success.
pub open spec fn is_success_status(status: u16) -> bool {
    200 <= status < 300
}

/// Whether an HTTP status reports success.
pub fn status_is_success(status: u16) -> (r: bool)
    ensures
        r == is_success_status(status),
{
    200 <= status && status < 300
}

/// What to do once the existence check answered: a variable that is
/// already there is updated in place, a missing one is created. A
/// non-success check status means "missing".
pub enum WriteAction {
    UpdateExisting,
    CreateNew,
}

/// Plans the write that follows the existence check.
pub fn plan_write_action(variable_exists: bool) -> (a: WriteAction)
    ensures
        variable_exists ==> a is UpdateExisting,
        !variable_exists ==> a is CreateNew,
{
    if variable_exists {
        WriteAction::UpdateExisting
    } else {
        WriteAction::CreateNew
    }
}

/// Classifies the response of a write: a success status reports the
/// project updated, any other status reports the write rejected and keeps
/// the status and response body for diagnosis.
pub fn outcome_of_write_response(status: u16, body: String) -> (o: UpdateOutcome)
    ensures
        is_success_status(status) ==> o is Updated,
        !is_success_status(status) ==> o == (UpdateOutcome::Rejected { status, body }),
{
    if 200 <= status && status < 300 {
        UpdateOutcome::Updated
    } else {
        UpdateOutcome::Rejected { status, body }
    }
}

/// How many outcomes of `s` report the project updated.
pub open spec fn count_updated(s: Seq<UpdateOutcome>) -> nat
    decreases s.len(),
{
    if s.len() == 0 {
        0
    } else {
        count_updated(s.drop_last()) + (if s.last() is Updated {
            1nat
        } else {
            0nat
        })
    }
}

/// How many outcomes of `s` report the write rejected.
pub open spec fn count_rejected(s: Seq<UpdateOutcome>) -> nat
    decreases s.len(),
{
    if s.len() == 0 {
        0
    } else {
        count_rejected(s.drop_last()) + (if s.last() is Rejected {
            1nat
        } else {
            0nat
        })
    }
}

/// How many outcomes of `s` report a transport failure.
pub open spec fn count_transport_failed(s: Seq<UpdateOutcome>) -> nat
    decreases s.len(),
{
    if s.len() == 0 {
        0
    } else {
        count_transport_failed(s.drop_last()) + (if s.last() is TransportFailed {
            1nat
        } else {
            0nat
        })
    }
}

/// How many outcomes of `s` report the project skipped.
pub open spec fn count_skipped(s: Seq<UpdateOutcome>) -> nat
    decreases s.len(),
{
    if s.len() == 0 {
        0
    } else {
        count_skipped(s.drop_last()) + (if s.last() is SkippedMissing {
            1nat
        } else {
            0nat
        })
    }
}

/// No more outcomes can match a counter than there are, and every outcome
/// lands in exactly one counter: the four counts add up to the length.
pub proof fn lemma_counts_partition(s: Seq<UpdateOutcome>)
    ensures
        count_updated(s) + count_rejected(s) + count_transport_failed(s) + count_skipped(s)
            == s.len(),
    decreases s.len(),
{
    if s.len() > 0 {
        lemma_counts_partition(s.drop_last());
    }
}

/// The run's closing report: one counter per kind of outcome.
pub struct Summary {
    pub updated: usize,
    pub rejected: usize,
    pub transport_failed: usize,
    pub skipped: usize,
}

/// Counts the outcomes of a whole run. Every outcome lands in exactly one
/// counter, so the counters add up to the number of attempts made.
pub fn summarize(outcomes: &Vec<UpdateOutcome>) -> (s: Summary)
    ensures
        s.updated == count_updated(outcomes@),
        s.rejected == count_rejected(outcomes@),
        s.transport_failed == count_transport_failed(outcomes@),
        s.skipped == count_skipped(outcomes@),
{
    let ghost all = outcomes@;
    let mut updated: usize = 0;
    let mut rejected: usize = 0;
    let mut transport_failed: usize = 0;
    let mut skipped: usize = 0;
    let mut i: usize = 0;
    while i < outcomes.len()
        invariant
            i <= all.len(),
            outcomes@ == all,
            updated == count_updated(all.take(i as int)),
            rejected == count_rejected(all.take(i as int)),
            transport_failed == count_transport_failed(all.take(i as int)),
            skipped == count_skipped(all.take(i as int)),
        decreases all.len() - i,
    {
        proof {
            assert(all.take(i as int + 1).drop_last() =~= all.take(i as int));
            assert(all.take(i as int + 1).last() == all[i as int]);
            lemma_counts_partition(all.take(i as int));
        }
        match &outcomes[i] {
            UpdateOutcome::Updated => {
                updated += 1;
            },
            UpdateOutcome::Rejected { .. } => {
                rejected += 1;
            },
            UpdateOutcome::TransportFailed { .. } => {
                transport_failed += 1;
            },
            UpdateOutcome::SkippedMissing => {
                skipped += 1;
            },
        }
        i += 1;
    }
    proof {
        assert(all.take(all.len() as int) =~= all);
    }
    Summary { updated, rejected, transport_failed, skipped }
}

} // verus!
