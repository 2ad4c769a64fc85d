//! Pitch scales as exact ratios and resampling of a signal by such a scale.
use crate::single::{
    exponent,
    is_finite,
    is_negative,
    mantissa,
    value_in_units,
    ALL_ONES,
    HIDDEN,
    SIGN,
};
use vstd::arithmetic::div_mod::{lemma_fundamental_div_mod, lemma_fundamental_div_mod_converse};
use vstd::arithmetic::power2::{
    lemma2_to64,
    lemma_pow2_adds,
    lemma_pow2_pos,
    lemma_pow2_strictly_increases,
    lemma_pow2_unfold,
    pow2,
};
use vstd::prelude::*;

verus! {

/// `x / y` rounded to the nearest whole number, a half rounding up.
pub open spec fn round_div(x: int, y: int) -> int
    recommends
        x >= 0,
        y > 0,
{
    (2 * x + y) / (2 * y)
}

/// Length of a signal of `len` samples after resampling by `num / den`:
/// `len / scale` rounded to the nearest whole number.  A scale that is not
/// positive leaves no samples.
pub open spec fn resampled_len(len: int, num: int, den: int) -> int
    recommends
        len >= 0,
        den > 0,
{
    if num <= 0 {
        0
    } else {
        round_div(len * den, num)
    }
}

/// The synthesis hop that belongs to the analysis hop `hop` under the scale
/// `num / den`: `scale * hop` rounded to the nearest whole number, and zero
/// for a scale that is not positive.
pub open spec fn scaled_hop(hop: int, num: int, den: int) -> int
    recommends
        hop >= 0,
        den > 0,
{
    if num <= 0 {
        0
    } else {
        round_div(hop * num, den)
    }
}

/// Index of the sample at or directly before the point in the source signal
/// that output sample `i` is taken from.
pub open spec fn source_index(i: int, num: int, den: int) -> int {
    (i * num) / den
}

/// How far behind `source_index` the point of output sample `i` lies, in
/// `den`-ths of a sample.
pub open spec fn source_offset(i: int, num: int, den: int) -> int {
    (i * num) % den
}

/// The sample to the right of `left`, or the last sample where `left` is the
/// last one.
pub open spec fn right_neighbour(left: int, len: int) -> int {
    if left + 1 < len {
        left + 1
    } else {
        len - 1
    }
}

/// What the interpolation is called with for output sample `i`, where the
/// point of that sample falls between two samples of `signal`: the sample
/// before the point, the sample after it, and the point's offset after the
/// first of them as a numerator over `den`.
pub open spec fn interpolation_of<T>(signal: Seq<T>, num: int, den: int, i: int) -> (T, T, u64, u64) {
    let left = source_index(i, num, den);
    (
        signal[left],
        signal[right_neighbour(left, signal.len() as int)],
        source_offset(i, num, den) as u64,
        den as u64,
    )
}

/// `value` is what output sample `i` may hold when `signal` is resampled by
/// `num / den`: the source sample itself where the sampling point falls on
/// one, otherwise a result of `interpolate` on the two samples around the
/// point and the point's offset between them.
pub open spec fn is_resampled_at<T, F: Fn(T, T, u64, u64) -> T>(
    signal: Seq<T>,
    num: int,
    den: int,
    interpolate: F,
    i: int,
    value: T,
) -> bool {
    let left = source_index(i, num, den);
    let offset = source_offset(i, num, den);
    &&& 0 <= left < signal.len()
    &&& if offset == 0 {
        value == signal[left]
    } else {
        call_ensures(interpolate, interpolation_of(signal, num, den, i), value)
    }
}

/// `out` is `signal` resampled by `num / den`: it is as long as
/// `resampled_len` says and each of its samples is what `is_resampled_at`
/// allows.
pub open spec fn is_resampling<T, F: Fn(T, T, u64, u64) -> T>(
    signal: Seq<T>,
    num: int,
    den: int,
    interpolate: F,
    out: Seq<T>,
) -> bool {
    &&& out.len() == resampled_len(signal.len() as int, num, den)
    &&& forall|i: int|
        0 <= i < out.len() ==> is_resampled_at(signal, num, den, interpolate, i, #[trigger] out[i])
}

/// `round_div` splits into the quotient and a correction by the remainder.
pub proof fn lemma_round_div(x: int, y: int)
    requires
        x >= 0,
        y > 0,
    ensures
        round_div(x, y) == x / y + if 2 * (x % y) >= y {
            1int
        } else {
            0int
        },
        round_div(x, y) >= 0,
{
    let q = x / y;
    let r = x % y;
    lemma_fundamental_div_mod(x, y);
    assert(q >= 0) by (nonlinear_arith)
        requires
            x == y * q + r,
            0 <= r < y,
            x >= 0,
    ;
    if 2 * r >= y {
        assert(2 * x + y == (q + 1) * (2 * y) + (2 * r - y)) by (nonlinear_arith)
            requires
                x == y * q + r,
        ;
        lemma_fundamental_div_mod_converse(2 * x + y, 2 * y, q + 1, 2 * r - y);
    } else {
        assert(2 * x + y == q * (2 * y) + (2 * r + y)) by (nonlinear_arith)
            requires
                x == y * q + r,
        ;
        lemma_fundamental_div_mod_converse(2 * x + y, 2 * y, q, 2 * r + y);
    }
}

/// A resampled signal holds `L / scale` samples, rounded to the nearest whole
/// number: its length lies within one half of that quotient, a half itself
/// rounding up.
pub proof fn lemma_resampling_length<T, F: Fn(T, T, u64, u64) -> T>(
    signal: Seq<T>,
    num: int,
    den: int,
    interpolate: F,
    out: Seq<T>,
)
    requires
        num > 0,
        den > 0,
        is_resampling(signal, num, den, interpolate, out),
    ensures
        out.len() == round_div(signal.len() * den, num),
        2 * out.len() * num <= 2 * signal.len() * den + num < 2 * (out.len() + 1) * num,
{
    let x = signal.len() * den;
    let n = round_div(x, num);
    assert(x >= 0) by (nonlinear_arith)
        requires
            x == signal.len() * den,
            den > 0,
    ;
    lemma_fundamental_div_mod(2 * x + num, 2 * num);
    let rest = (2 * x + num) % (2 * num);
    assert(2 * n * num <= 2 * x + num < 2 * (n + 1) * num) by (nonlinear_arith)
        requires
            2 * x + num == (2 * num) * n + rest,
            0 <= rest < 2 * num,
    ;
    assert(2 * signal.len() * den == 2 * x) by (nonlinear_arith)
        requires
            x == signal.len() * den,
    ;
}

/// Every sampling point of a resampled signal lies inside the source signal.
pub proof fn lemma_source_index_in_range(len: int, num: int, den: int, i: int)
    requires
        len >= 0,
        den > 0,
        0 <= i < resampled_len(len, num, den),
    ensures
        0 <= source_index(i, num, den) < len,
        0 <= source_offset(i, num, den) < den,
{
    let total = resampled_len(len, num, den);
    let x = len * den;
    assert(x >= 0) by (nonlinear_arith)
        requires
            x == len * den,
            len >= 0,
            den > 0,
    ;
    lemma_fundamental_div_mod(2 * x + num, 2 * num);
    let rest = (2 * x + num) % (2 * num);
    assert(i * num < x) by (nonlinear_arith)
        requires
            2 * x + num == (2 * num) * total + rest,
            0 <= rest,
            0 <= i < total,
            num > 0,
    ;
    assert(0 <= i * num) by (nonlinear_arith)
        requires
            0 <= i,
            num > 0,
    ;
    let t = i * num;
    lemma_fundamental_div_mod(t, den);
    let q = t / den;
    let r = t % den;
    assert(0 <= q < len) by (nonlinear_arith)
        requires
            t == den * q + r,
            0 <= r < den,
            0 <= t < len * den,
            den > 0,
    ;
}

/// Resampling by a scale of one keeps the length and takes every sample as
/// it is.
pub proof fn lemma_unit_scale(len: int, den: int, i: int)
    requires
        len >= 0,
        den > 0,
    ensures
        resampled_len(len, den, den) == len,
        source_index(i, den, den) == i,
        source_offset(i, den, den) == 0,
{
    assert(2 * (len * den) + den == len * (2 * den) + den) by (nonlinear_arith);
    lemma_fundamental_div_mod_converse(2 * (len * den) + den, 2 * den, len, den);
    lemma_fundamental_div_mod_converse(i * den, den, i, 0);
}

/// The mantissa `m` and the exponent `e` of a number `m * 2^e`, with every
/// factor of two moved from the mantissa into the exponent.
pub open spec fn reduced(m: int, e: int) -> (int, int)
    decreases m,
{
    if m > 0 && m % 2 == 0 {
        reduced(m / 2, e + 1)
    } else {
        (m, e)
    }
}

/// The ratio in lowest terms that equals the number which the
/// single-precision pattern `bits` stands for, as numerator and denominator;
/// `None` where the pattern stands for no finite number, or where the
/// numerator does not fit into 64 bits with a sign or the denominator not
/// into 64 bits without.
pub open spec fn ratio_of_bits(bits: u32) -> Option<(int, int)> {
    let (m, e) = reduced(mantissa(bits), exponent(bits));
    let signed = if is_negative(bits) {
        -m
    } else {
        m
    };
    if !is_finite(bits) {
        None
    } else if m == 0 {
        Some((0, 1))
    } else if e >= 0 {
        if m * pow2(e as nat) <= i64::MAX {
            Some((signed * pow2(e as nat), 1))
        } else {
            None
        }
    } else {
        if pow2((-e) as nat) <= u64::MAX {
            Some((signed, pow2((-e) as nat) as int))
        } else {
            None
        }
    }
}

/// Moving factors of two into the exponent keeps the number.
pub proof fn lemma_reduced_keeps_value(m: int, e: int)
    requires
        m >= 0,
        e >= -149,
    ensures
        ({
            let (rm, re) = reduced(m, e);
            &&& rm >= 0
            &&& re >= e
            &&& rm * pow2((re + 149) as nat) == m * pow2((e + 149) as nat)
            &&& (m > 0 ==> rm % 2 == 1)
        }),
    decreases m,
{
    if m > 0 && m % 2 == 0 {
        lemma_reduced_keeps_value(m / 2, e + 1);
        let (rm, re) = reduced(m / 2, e + 1);
        lemma_pow2_unfold((e + 150) as nat);
        let p = pow2((e + 149) as nat) as int;
        assert((m / 2) * (2 * p) == m * p) by (nonlinear_arith)
            requires
                m % 2 == 0,
        ;
    }
}

/// The ratio of a pattern equals the number that the pattern stands for:
/// the numerator over the denominator is the value in units of `2^-149`
/// over `2^149`.
pub proof fn lemma_ratio_is_value(bits: u32)
    ensures
        ratio_of_bits(bits) matches Some((num, den)) ==> den > 0 && num * pow2(149)
            == value_in_units(bits) * den,
{
    if let Some((num, den)) = ratio_of_bits(bits) {
        let m0 = mantissa(bits);
        let e0 = exponent(bits);
        lemma_reduced_keeps_value(m0, e0);
        let (m, e) = reduced(m0, e0);
        let units = m0 * pow2((e0 + 149) as nat);
        lemma2_to64();
        if m == 0 {
            assert(units == 0) by (nonlinear_arith)
                requires
                    0 * pow2((e + 149) as nat) == units,
            ;
        } else if e >= 0 {
            lemma_pow2_adds(e as nat, 149);
            assert(m * pow2(e as nat) * pow2(149) == m * pow2((e + 149) as nat))
                by (nonlinear_arith)
                requires
                    pow2(e as nat) * pow2(149) == pow2((e + 149) as nat),
            ;
            assert((-m) * pow2(e as nat) * pow2(149) == -(m * pow2((e + 149) as nat)))
                by (nonlinear_arith)
                requires
                    pow2(e as nat) * pow2(149) == pow2((e + 149) as nat),
            ;
            assert(units * 1 == units);
        } else {
            lemma_pow2_adds((e + 149) as nat, (-e) as nat);
            lemma_pow2_pos((-e) as nat);
            assert(m * pow2((e + 149) as nat) * pow2((-e) as nat) == m * pow2(149))
                by (nonlinear_arith)
                requires
                    pow2((e + 149) as nat) * pow2((-e) as nat) == pow2(149),
            ;
            assert((-(m * pow2((e + 149) as nat))) * pow2((-e) as nat) == (-m) * pow2(149))
                by (nonlinear_arith)
                requires
                    pow2((e + 149) as nat) * pow2((-e) as nat) == pow2(149),
            ;
        }
    }
}

fn doubled(start: u64, times: u32, limit: u64) -> (out: Option<u64>)
    requires
        0 < start <= limit,
    ensures
        match out {
            Some(n) => n == start * pow2(times as nat) && n <= limit,
            None => start * pow2(times as nat) > limit,
        },
{
    let mut n: u64 = start;
    let mut k: u32 = 0;
    proof {
        lemma2_to64();
    }
    while k < times
        invariant
            k <= times,
            0 < start,
            n <= limit,
            n == start * pow2(k as nat),
        decreases times - k,
    {
        proof {
            lemma_pow2_unfold((k + 1) as nat);
            assert(start * pow2((k + 1) as nat) == 2 * (start * pow2(k as nat))) by (nonlinear_arith)
                requires
                    pow2((k + 1) as nat) == 2 * pow2(k as nat),
            ;
        }
        if n > limit / 2 {
            proof {
                if k + 1 < times {
                    lemma_pow2_strictly_increases((k + 1) as nat, times as nat);
                }
                assert(start * pow2(times as nat) >= start * pow2((k + 1) as nat))
                    by (nonlinear_arith)
                    requires
                        pow2(times as nat) >= pow2((k + 1) as nat),
                        start > 0,
                ;
            }
            return None;
        }
        n = n * 2;
        k = k + 1;
    }
    Some(n)
}

/// A pitch scale: the ratio of a whole numerator to a positive whole
/// denominator.
#[derive(Clone, Copy, Debug)]
pub struct Scale {
    num: i64,
    den: u64,
}

impl Scale {
    #[verifier::type_invariant]
    spec fn positive_denominator(self) -> bool {
        self.den > 0
    }

    /// Numerator of the ratio.
    pub closed spec fn num(self) -> int {
        self.num as int
    }

    /// Denominator of the ratio.
    pub closed spec fn den(self) -> int {
        self.den as int
    }

    /// The scale `num / den`, or `None` where `den` is zero.
    pub fn new(num: i64, den: u64) -> (scale: Option<Scale>)
        ensures
            scale is Some <==> den > 0,
            scale matches Some(s) ==> s.num() == num && s.den() == den,
    {
        if den == 0 {
            None
        } else {
            Some(Scale { num, den })
        }
    }

    /// The scale that equals the number which the single-precision pattern
    /// `bits` stands for, or `None` where there is no such scale.
    pub fn from_single_bits(bits: u32) -> (scale: Option<Scale>)
        ensures
            match scale {
                Some(s) => ratio_of_bits(bits) == Some((s.num(), s.den())),
                None => ratio_of_bits(bits) is None,
            },
    {
        let magnitude: u32 = bits % SIGN;
        let field: u32 = magnitude / HIDDEN;
        let fraction: u32 = magnitude % HIDDEN;
        if field >= ALL_ONES {
            return None;
        }
        let negative: bool = bits >= SIGN;
        let mut m: u64 = if field == 0 {
            fraction as u64
        } else {
            fraction as u64 + HIDDEN as u64
        };
        let mut e: i64 = if field == 0 {
            -149
        } else {
            field as i64 - 150
        };
        if m == 0 {
            return Some(Scale { num: 0, den: 1 });
        }
        let ghost m0 = m as int;
        let ghost e0 = e as int;
        assert(m0 == mantissa(bits) && e0 == exponent(bits));
        while m % 2 == 0
            invariant
                0 < m <= m0,
                m0 < 2 * HIDDEN,
                -149 <= e,
                e + m <= e0 + m0,
                e0 <= 104,
                reduced(m as int, e as int) == reduced(m0, e0),
            decreases m,
        {
            m = m / 2;
            e = e + 1;
        }
        assert(reduced(mantissa(bits), exponent(bits)) == (m as int, e as int));
        let signed: i64 = if negative {
            -(m as i64)
        } else {
            m as i64
        };
        if e >= 0 {
            match doubled(m, e as u32, i64::MAX as u64) {
                Some(n) => {
                    proof {
                        lemma_pow2_pos(e as nat);
                        assert(signed * pow2(e as nat) == if negative {
                            -(n as int)
                        } else {
                            n as int
                        }) by (nonlinear_arith)
                            requires
                                n == m * pow2(e as nat),
                                signed == if negative {
                                    -(m as int)
                                } else {
                                    m as int
                                },
                        ;
                    }
                    Some(
                        Scale {
                            num: if negative {
                                -(n as i64)
                            } else {
                                n as i64
                            },
                            den: 1,
                        },
                    )
                },
                None => None,
            }
        } else {
            match doubled(1, (-e) as u32, u64::MAX) {
                Some(d) => {
                    proof {
                        lemma_pow2_pos((-e) as nat);
                    }
                    Some(Scale { num: signed, den: d })
                },
                None => None,
            }
        }
    }

    /// The scale that changes nothing.
    pub fn unity() -> (scale: Scale)
        ensures
            scale.num() == 1,
            scale.den() == 1,
    {
        Scale { num: 1, den: 1 }
    }

    /// Numerator of the ratio.
    pub fn numerator(&self) -> (num: i64)
        ensures
            num == self.num(),
    {
        self.num
    }

    /// Denominator of the ratio, which is never zero.
    pub fn denominator(&self) -> (den: u64)
        ensures
            den == self.den(),
            den > 0,
    {
        proof {
            use_type_invariant(self);
        }
        self.den
    }

    /// Length of a signal of `len` samples after resampling by this scale, or
    /// `None` where that length is beyond what a `usize` holds.
    pub fn resampled_len(&self, len: usize) -> (out: Option<usize>)
        ensures
            match out {
                Some(n) => n == resampled_len(len as int, self.num(), self.den()),
                None => resampled_len(len as int, self.num(), self.den()) > usize::MAX,
            },
    {
        proof {
            use_type_invariant(self);
        }
        if self.num <= 0 {
            return Some(0);
        }
        assert(len * self.den <= u128::MAX) by (nonlinear_arith)
            requires
                len <= u64::MAX,
                self.den <= u64::MAX,
        ;
        rounded_quotient(len as u128 * self.den as u128, self.num as u128)
    }

    /// Synthesis hop for the analysis hop `hop_a` under this scale, or `None`
    /// where it is beyond what a `usize` holds.
    pub fn synthesis_hop(&self, hop_a: usize) -> (out: Option<usize>)
        ensures
            match out {
                Some(n) => n == scaled_hop(hop_a as int, self.num(), self.den()),
                None => scaled_hop(hop_a as int, self.num(), self.den()) > usize::MAX,
            },
    {
        proof {
            use_type_invariant(self);
        }
        if self.num <= 0 {
            return Some(0);
        }
        assert(hop_a * self.num <= u128::MAX) by (nonlinear_arith)
            requires
                hop_a <= u64::MAX,
                self.num <= i64::MAX,
        ;
        rounded_quotient(hop_a as u128 * self.num as u128, self.den as u128)
    }
}

fn rounded_quotient(x: u128, y: u128) -> (out: Option<usize>)
    requires
        y > 0,
    ensures
        match out {
            Some(n) => n == round_div(x as int, y as int),
            None => round_div(x as int, y as int) > usize::MAX,
        },
{
    proof {
        lemma_round_div(x as int, y as int);
    }
    let quotient: u128 = x / y;
    let rest: u128 = x % y;
    let up: bool = rest >= y - rest;
    if quotient > usize::MAX as u128 {
        None
    } else if up {
        if quotient == usize::MAX as u128 {
            None
        } else {
            Some((quotient + 1) as usize)
        }
    } else {
        Some(quotient as usize)
    }
}

/// Resamples `signal` as if it were played `scale` times faster.  Output
/// sample `i` is taken at the point `i * scale` of the source: where that
/// point falls on a sample the sample is copied, otherwise `interpolate`
/// is called with the sample before the point, the sample after it (the last
/// sample again at the end of the signal), and the point's offset after the
/// first of them as a numerator and the scale's denominator.
pub fn sample_audio<T: Copy, F: Fn(T, T, u64, u64) -> T>(
    signal: &[T],
    scale: Scale,
    interpolate: F,
) -> (out: Vec<T>)
    requires
        resampled_len(signal@.len() as int, scale.num(), scale.den()) <= usize::MAX,
        forall|i: int|
            0 <= i < resampled_len(signal@.len() as int, scale.num(), scale.den())
                && source_offset(i, scale.num(), scale.den()) != 0 ==> call_requires(
                interpolate,
                #[trigger] interpolation_of(signal@, scale.num(), scale.den(), i),
            ),
    ensures
        is_resampling(signal@, scale.num(), scale.den(), interpolate, out@),
        out@.len() == resampled_len(signal@.len() as int, scale.num(), scale.den()),
        scale.num() == scale.den() ==> out@ == signal@,
{
    let len: usize = signal.len();
    let num: i64 = scale.numerator();
    let den: u64 = scale.denominator();
    let nb_samples: usize = match scale.resampled_len(len) {
        Some(n) => n,
        None => 0,
    };
    let mut out: Vec<T> = Vec::with_capacity(nb_samples);
    let mut i: usize = 0;
    while i < nb_samples
        invariant
            len == signal@.len(),
            num == scale.num(),
            den == scale.den(),
            den > 0,
            nb_samples == resampled_len(len as int, num as int, den as int),
            i <= nb_samples,
            out@.len() == i,
            forall|k: int|
                0 <= k < nb_samples && source_offset(k, num as int, den as int) != 0
                    ==> call_requires(
                    interpolate,
                    #[trigger] interpolation_of(signal@, num as int, den as int, k),
                ),
            forall|k: int|
                0 <= k < i ==> is_resampled_at(
                    signal@,
                    num as int,
                    den as int,
                    interpolate,
                    k,
                    #[trigger] out@[k],
                ),
        decreases nb_samples - i,
    {
        proof {
            lemma_source_index_in_range(len as int, num as int, den as int, i as int);
        }
        assert(0 <= i * num <= u128::MAX) by (nonlinear_arith)
            requires
                0 <= i <= u64::MAX,
                0 < num <= i64::MAX,
        ;
        let point: u128 = i as u128 * num as u128;
        let left: usize = (point / den as u128) as usize;
        let offset: u64 = (point % den as u128) as u64;
        let value: T = if offset == 0 {
            signal[left]
        } else {
            let right: usize = if left + 1 < len {
                left + 1
            } else {
                len - 1
            };
            assert(interpolation_of(signal@, num as int, den as int, i as int) == (
                signal@[left as int],
                signal@[right as int],
                offset,
                den,
            ));
            interpolate(signal[left], signal[right], offset, den)
        };
        out.push(value);
        i = i + 1;
    }
    proof {
        if num as int == den as int {
            lemma_unit_scale(len as int, den as int, 0);
            assert forall|k: int| 0 <= k < len implies out@[k] == signal@[k] by {
                lemma_unit_scale(len as int, den as int, k);
            }
        }
    }
    out
}

} // verus!
