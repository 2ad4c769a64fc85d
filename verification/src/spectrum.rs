//! Work on the bins of a spectrum: moving them by a number of semitones and
//! the choice of the dominant bin.
//!
//! A spectrum is a sequence of bins of any copyable type; nothing here looks
//! into a bin's value.
use vstd::arithmetic::div_mod::{lemma_basic_div, lemma_small_mod};
use vstd::arithmetic::power2::{
    lemma2_to64,
    lemma_pow2_pos,
    lemma_pow2_strictly_increases,
    lemma_pow2_unfold,
    pow2,
};
use vstd::prelude::*;

verus! {

/// Semitones in an octave.
pub const SEMITONES_PER_OCTAVE: u32 = 12;

/// Size of a shift, whatever its direction.
pub open spec fn magnitude(shift: int) -> nat {
    if shift >= 0 {
        shift as nat
    } else {
        (-shift) as nat
    }
}

/// The bin that destination bin `i` of an `n`-bin spectrum takes its value
/// from when the pitch moves by `shift` semitones, or `None` when the bin
/// stays empty.
///
/// Moving by `shift` semitones scales every frequency by `2^(shift / 12)`,
/// so destination bin `i` corresponds to the source position `i / scale`.
/// The bin is filled only when that position is itself a bin of the spectrum:
/// a whole number below `n`.  The scale is rational only for whole octaves;
/// for any other shift bin 0 alone has a source.
pub open spec fn source_bin(i: int, n: int, shift: int) -> Option<int> {
    let step = pow2(magnitude(shift) / 12) as int;
    if magnitude(shift) % 12 != 0 {
        if i == 0 {
            Some(0)
        } else {
            None
        }
    } else if shift >= 0 {
        if i % step == 0 {
            Some(i / step)
        } else {
            None
        }
    } else {
        if i * step < n {
            Some(i * step)
        } else {
            None
        }
    }
}

/// A source bin, where there is one, is a bin of the spectrum.
pub proof fn lemma_source_bin_in_range(i: int, n: int, shift: int)
    requires
        0 <= i < n,
    ensures
        source_bin(i, n, shift) matches Some(k) ==> 0 <= k < n,
{
    let step = pow2(magnitude(shift) / 12) as int;
    lemma_pow2_pos(magnitude(shift) / 12);
    if magnitude(shift) % 12 == 0 {
        if shift >= 0 {
            assert(0 <= i / step <= i) by (nonlinear_arith)
                requires
                    0 <= i,
                    step >= 1,
            ;
        } else {
            assert(0 <= i * step) by (nonlinear_arith)
                requires
                    0 <= i,
                    step >= 1,
            ;
        }
    }
}

/// A shift of zero semitones maps every bin to itself.
pub proof fn lemma_zero_shift_is_identity(i: int, n: int)
    requires
        0 <= i < n,
    ensures
        source_bin(i, n, 0) == Some(i),
{
    lemma2_to64();
}

fn octave_step(octaves: u32) -> (step: Option<usize>)
    ensures
        match step {
            Some(s) => s == pow2(octaves as nat),
            None => pow2(octaves as nat) > usize::MAX,
        },
{
    let mut step: usize = 1;
    let mut k: u32 = 0;
    proof {
        lemma2_to64();
    }
    while k < octaves
        invariant
            k <= octaves,
            step == pow2(k as nat),
        decreases octaves - k,
    {
        if step > usize::MAX / 2 {
            proof {
                lemma_pow2_unfold((k + 1) as nat);
                if k + 1 < octaves {
                    lemma_pow2_strictly_increases((k + 1) as nat, octaves as nat);
                }
            }
            return None;
        }
        proof {
            lemma_pow2_unfold((k + 1) as nat);
        }
        step = step * 2;
        k = k + 1;
    }
    Some(step)
}

/// Moves the bins of a spectrum by `shift` semitones.  Destination bin
/// `i` receives the value of `source_bin(i, ..)`; a bin without a source
/// receives `zero`.
pub fn shift_amplitudes<T: Copy>(amplitudes: &[T], shift: i32, zero: T) -> (shifted: Vec<T>)
    ensures
        shifted@.len() == amplitudes@.len(),
        forall|i: int|
            0 <= i < shifted@.len() ==> #[trigger] shifted@[i] == match source_bin(
                i,
                amplitudes@.len() as int,
                shift as int,
            ) {
                Some(k) => amplitudes@[k],
                None => zero,
            },
        shift == 0 ==> shifted@ == amplitudes@,
{
    let n: usize = amplitudes.len();
    let size: u32 = if shift >= 0 {
        shift as u32
    } else {
        (-(shift as i64)) as u32
    };
    let whole_octaves: bool = size % SEMITONES_PER_OCTAVE == 0;
    let step: Option<usize> = octave_step(size / SEMITONES_PER_OCTAVE);
    let mut shifted: Vec<T> = Vec::with_capacity(n);
    let mut i: usize = 0;
    while i < n
        invariant
            n == amplitudes@.len(),
            i <= n,
            size == magnitude(shift as int),
            whole_octaves == (size % 12 == 0),
            match step {
                Some(s) => s == pow2((size / 12) as nat),
                None => pow2((size / 12) as nat) > usize::MAX,
            },
            shifted@.len() == i,
            forall|k: int|
                0 <= k < i ==> #[trigger] shifted@[k] == match source_bin(
                    k,
                    n as int,
                    shift as int,
                ) {
                    Some(src) => amplitudes@[src],
                    None => zero,
                },
        decreases n - i,
    {
        proof {
            lemma_pow2_pos((size / 12) as nat);
            lemma_source_bin_in_range(i as int, n as int, shift as int);
        }
        let ghost full_step = pow2((size / 12) as nat) as int;
        let value: T = if !whole_octaves {
            if i == 0 {
                amplitudes[0]
            } else {
                zero
            }
        } else if shift >= 0 {
            match step {
                Some(s) => {
                    if i % s == 0 {
                        amplitudes[i / s]
                    } else {
                        zero
                    }
                },
                None => {
                    proof {
                        lemma_small_mod(i as nat, full_step as nat);
                        lemma_basic_div(i as int, full_step);
                    }
                    if i == 0 {
                        amplitudes[0]
                    } else {
                        zero
                    }
                },
            }
        } else {
            match step {
                Some(s) => {
                    assert(i * s < n <==> i <= (n - 1) / (s as int)) by (nonlinear_arith)
                        requires
                            0 <= i,
                            0 < n,
                            0 < s,
                    ;
                    if i <= (n - 1) / s {
                        amplitudes[i * s]
                    } else {
                        zero
                    }
                },
                None => {
                    assert(i * full_step < n <==> i == 0) by (nonlinear_arith)
                        requires
                            0 <= i,
                            0 < n,
                            n < full_step,
                    ;
                    if i == 0 {
                        amplitudes[0]
                    } else {
                        zero
                    }
                },
            }
        };
        shifted.push(value);
        i = i + 1;
    }
    proof {
        if shift == 0 {
            assert forall|k: int| 0 <= k < n implies shifted@[k] == amplitudes@[k] by {
                lemma_zero_shift_is_identity(k, n as int);
            }
        }
    }
    shifted
}

/// `k` is the dominant bin of `levels`: the first bin, bin 0 left aside, whose
/// level no other bin exceeds.
pub open spec fn is_main_bin(levels: Seq<i64>, k: int) -> bool {
    &&& 1 <= k < levels.len()
    &&& forall|j: int| 1 <= j < levels.len() ==> levels[j] <= levels[k]
    &&& forall|j: int| 1 <= j < k ==> levels[j] < levels[k]
}

/// A spectrum has at most one dominant bin.
pub proof fn lemma_main_bin_is_unique(levels: Seq<i64>, a: int, b: int)
    requires
        is_main_bin(levels, a),
        is_main_bin(levels, b),
    ensures
        a == b,
{
    if a < b {
        assert(levels[b] <= levels[a]);
    } else if b < a {
        assert(levels[a] <= levels[b]);
    }
}

/// Finds the dominant bin of a spectrum given the level of each bin.  Bin 0,
/// the constant component, never counts; a spectrum of fewer than two bins
/// has no dominant bin.
pub fn main_frequency_bin(levels: &[i64]) -> (bin: Option<usize>)
    ensures
        bin is None <==> levels@.len() < 2,
        bin matches Some(k) ==> is_main_bin(levels@, k as int),
{
    let n: usize = levels.len();
    if n < 2 {
        return None;
    }
    let mut best: usize = 1;
    let mut i: usize = 2;
    while i < n
        invariant
            n == levels@.len(),
            2 <= i <= n,
            1 <= best < i,
            forall|j: int| 1 <= j < i ==> levels@[j] <= levels@[best as int],
            forall|j: int| 1 <= j < best ==> levels@[j] < levels@[best as int],
        decreases n - i,
    {
        if levels[i] > levels[best] {
            best = i;
        }
        i = i + 1;
    }
    Some(best)
}

} // verus!
