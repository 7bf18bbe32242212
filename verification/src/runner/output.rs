//! Job outcomes.
use vstd::prelude::*;

use crate::error::LabError;
use crate::model::job::AllowFailure;

verus! {

/// How a job ended.
#[derive(Debug, Clone, Copy, PartialEq, Eq, Structural)]
pub enum JobStatus {
    Success,
    Failed,
    AllowedFailure,
}

/// Whether `allow_failure` allows a job to have failed with `err`: `true` allows every
/// failure; a list of exit codes allows a script that exited with one of them.
pub open spec fn failure_allowed(err: LabError, allow_failure: AllowFailure) -> bool {
    match allow_failure {
        AllowFailure::Bool(b) => b,
        AllowFailure::ExitCodes { exit_codes } => match err {
            LabError::ContainerFailed { code } => exists|i: int|
                0 <= i < exit_codes@.len() && exit_codes@[i] as int == code as int,
            _ => false,
        },
    }
}

/// The status recorded for a job that ran: success, or a failure that its
/// `allow_failure` either allows or not.
pub fn job_status(result: &Result<(), LabError>, allow_failure: &AllowFailure) -> (r: JobStatus)
    ensures
        r == match result {
            Ok(_) => JobStatus::Success,
            Err(e) => if failure_allowed(*e, *allow_failure) {
                JobStatus::AllowedFailure
            } else {
                JobStatus::Failed
            },
        },
{
    match result {
        Ok(_) => JobStatus::Success,
        Err(e) => {
            let allowed = match allow_failure {
                AllowFailure::Bool(b) => *b,
                AllowFailure::ExitCodes { .. } => match e {
                    LabError::ContainerFailed { code } => {
                        if i32::MIN as i64 <= *code && *code <= i32::MAX as i64 {
                            let c: i32 = *code as i32;
                            let a = allow_failure.is_allowed(c);
                            proof {
                                if let AllowFailure::ExitCodes { exit_codes } = allow_failure {
                                    if a {
                                        let i = choose|i: int|
                                            0 <= i < exit_codes@.len() && exit_codes@[i] == c;
                                        assert(exit_codes@[i] as int == *code as int);
                                    }
                                }
                            }
                            a
                        } else {
                            false
                        }
                    },
                    _ => false,
                },
            };
            if allowed {
                JobStatus::AllowedFailure
            } else {
                JobStatus::Failed
            }
        },
    }
}

/// Whether any recorded status is a failure (allowed failures do not count).
pub fn has_failures(statuses: &Vec<JobStatus>) -> (r: bool)
    ensures
        r == statuses@.contains(JobStatus::Failed),
{
    let mut i: usize = 0;
    while i < statuses.len()
        invariant
            i <= statuses@.len(),
            forall|j: int| 0 <= j < i ==> statuses@[j] != JobStatus::Failed,
        decreases statuses@.len() - i,
    {
        if statuses[i] == JobStatus::Failed {
            assert(statuses@[i as int] == JobStatus::Failed);
            return true;
        }
        i = i + 1;
    }
    false
}

/// The number of recorded statuses equal to `st`.
pub open spec fn status_count(s: Seq<JobStatus>, st: JobStatus) -> nat
    decreases s.len(),
{
    if s.len() == 0 {
        0
    } else {
        status_count(s.drop_last(), st) + if s.last() == st {
            1nat
        } else {
            0nat
        }
    }
}

proof fn lemma_status_count_bound(s: Seq<JobStatus>, st: JobStatus)
    ensures
        status_count(s, st) <= s.len(),
    decreases s.len(),
{
    if s.len() > 0 {
        lemma_status_count_bound(s.drop_last(), st);
    }
}

/// How many jobs ended with the given status.
pub fn count_status(statuses: &Vec<JobStatus>, st: JobStatus) -> (r: usize)
    ensures
        r == status_count(statuses@, st),
{
    let mut n: usize = 0;
    let mut i: usize = 0;
    while i < statuses.len()
        invariant
            i <= statuses@.len(),
            n == status_count(statuses@.take(i as int), st),
        decreases statuses@.len() - i,
    {
        proof {
            assert(statuses@.take(i + 1).drop_last() =~= statuses@.take(i as int));
            lemma_status_count_bound(statuses@.take(i as int), st);
        }
        if statuses[i] == st {
            n = n + 1;
        }
        i = i + 1;
    }
    assert(statuses@.take(statuses@.len() as int) =~= statuses@);
    n
}

} // verus!
