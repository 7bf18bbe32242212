//! The context shared by a running pipeline: a cancellation flag.
use vstd::prelude::*;

use std::sync::atomic::AtomicBool;
use std::sync::Arc;

use crate::error::LabError;

verus! {

/// `AtomicBool::new(false)`.
#[verifier::external_body]
fn flag_cleared() -> AtomicBool {
    AtomicBool::new(false)
}

/// `AtomicBool::load` with relaxed ordering. Other holders of the flag may set it at
/// any time, so nothing is claimed of the value read.
#[verifier::external_body]
fn flag_is_set(flag: &AtomicBool) -> bool {
    flag.load(std::sync::atomic::Ordering::Relaxed)
}

/// `AtomicBool::store(true)` with relaxed ordering.
#[verifier::external_body]
fn flag_set(flag: &AtomicBool) {
    flag.store(true, std::sync::atomic::Ordering::Relaxed)
}

/// Shared context threaded through a pipeline's executors; clones share the flag.
#[derive(Clone)]
pub struct ExecutorCtx {
    cancelled: Arc<AtomicBool>,
}

impl ExecutorCtx {
    /// A context that is not cancelled.
    pub fn new() -> (r: Self) {
        ExecutorCtx { cancelled: Arc::new(flag_cleared()) }
    }

    /// Whether some holder of the context has cancelled it.
    pub fn is_cancelled(&self) -> (r: bool) {
        flag_is_set(&self.cancelled)
    }

    /// Cancel the context for every holder.
    pub fn cancel(&self) {
        flag_set(&self.cancelled)
    }
}

impl Default for ExecutorCtx {
    fn default() -> (r: Self) {
        ExecutorCtx::new()
    }
}

/// The position of the first error among results, if any.
pub open spec fn first_err_index(results: Seq<Result<(), LabError>>) -> Option<int>
    decreases results.len(),
{
    if results.len() == 0 {
        None
    } else if results[0] is Err {
        Some(0)
    } else {
        match first_err_index(results.drop_first()) {
            Some(i) => Some(i + 1),
            None => None,
        }
    }
}

proof fn lemma_first_err_index(results: Seq<Result<(), LabError>>)
    ensures
        match first_err_index(results) {
            Some(i) => 0 <= i < results.len() && results[i] is Err && forall|j: int|
                0 <= j < i ==> results[j] is Ok,
            None => forall|j: int| 0 <= j < results.len() ==> results[j] is Ok,
        },
    decreases results.len(),
{
    if results.len() > 0 && results[0] is Ok {
        lemma_first_err_index(results.drop_first());
        assert forall|j: int| 1 <= j < results.len() implies results[j] == results.drop_first()[j - 1] by {}
    }
}

/// What jobs run side by side give together: the first error in their order, or `Ok`
/// when every one succeeded.
pub fn first_error(results: Vec<Result<(), LabError>>) -> (r: Result<(), LabError>)
    ensures
        match first_err_index(results@) {
            Some(i) => r == results@[i],
            None => r is Ok,
        },
{
    let ghost all = results@;
    proof {
        lemma_first_err_index(all);
    }
    let n = results.len();
    let mut rest = results;
    let mut k: usize = 0;
    while rest.len() > 0
        invariant
            n == all.len(),
            all == results@,
            k + rest@.len() == all.len(),
            rest@ == all.skip(k as int),
            forall|j: int| 0 <= j < k ==> all[j] is Ok,
            match first_err_index(all) {
                Some(i) => 0 <= i < all.len() && all[i] is Err && forall|j: int| 0 <= j < i ==> all[j] is Ok,
                None => forall|j: int| 0 <= j < all.len() ==> all[j] is Ok,
            },
        decreases rest@.len(),
    {
        let r = rest.remove(0);
        assert(r == all[k as int]);
        if r.is_err() {
            proof {
                match first_err_index(all) {
                    Some(i) => {
                        if i < k {
                            assert(all[i] is Ok);
                        } else if i > k {
                            assert(all[k as int] is Ok);
                        }
                        assert(i == k);
                    },
                    None => {
                        assert(all[k as int] is Ok);
                    },
                }
            }
            return r;
        }
        assert(all.skip(k + 1) =~= all.skip(k as int).drop_first());
        k = k + 1;
    }
    Ok(())
}

} // verus!
