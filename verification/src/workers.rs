//! Splitting a list of frames between a fixed number of workers.
use vstd::arithmetic::div_mod::{lemma_div_is_ordered, lemma_div_multiples_vanish};
use vstd::prelude::*;

verus! {

/// Number of workers that a pass over the frames is split between.
pub const WORKERS: usize = 4;

/// Index of the first item that worker `worker` out of `workers` takes when
/// `items` items are split into contiguous shares.  The share of a worker
/// ends where the share of the next one starts.
pub open spec fn share_start(worker: int, workers: int, items: int) -> int
    recommends
        0 <= worker <= workers,
        workers > 0,
        items >= 0,
{
    (worker * items) / workers
}

/// The shares of `workers` workers cover all `items` items in order: the
/// first share starts at the first item, the share of the last worker ends
/// behind the last item, and no share ends before it starts.  A share may be
/// empty, as it must be where there are fewer items than workers.
pub proof fn lemma_shares_tile(worker: int, workers: int, items: int)
    requires
        0 <= worker < workers,
        items >= 0,
    ensures
        share_start(0, workers, items) == 0,
        share_start(workers, workers, items) == items,
        0 <= share_start(worker, workers, items) <= share_start(worker + 1, workers, items)
            <= items,
{
    lemma_div_multiples_vanish(items, workers);
    assert(0 <= worker * items <= (worker + 1) * items <= workers * items) by (nonlinear_arith)
        requires
            0 <= worker < workers,
            items >= 0,
    ;
    lemma_div_is_ordered(0, worker * items, workers);
    lemma_div_is_ordered(worker * items, (worker + 1) * items, workers);
    lemma_div_is_ordered((worker + 1) * items, workers * items, workers);
}

/// The share of worker `worker` out of `workers` in a list of `items` items,
/// as the index of its first item and the index behind its last one.
pub fn worker_range(worker: usize, workers: usize, items: usize) -> (range: (usize, usize))
    requires
        worker < workers,
    ensures
        range.0 == share_start(worker as int, workers as int, items as int),
        range.1 == share_start(worker + 1, workers as int, items as int),
        range.0 <= range.1 <= items,
{
    proof {
        lemma_shares_tile(worker as int, workers as int, items as int);
    }
    assert(0 <= worker * items <= (worker + 1) * items <= u128::MAX) by (nonlinear_arith)
        requires
            0 <= worker < u64::MAX,
            0 <= items <= u64::MAX,
    ;
    let first: u128 = (worker as u128 * items as u128) / workers as u128;
    let behind: u128 = ((worker as u128 + 1) * items as u128) / workers as u128;
    (first as usize, behind as usize)
}

} // verus!
