//! The run of the phase vocoder and the sizes that it goes through.
//!
//! The vocoder cuts the signal into frames, has the frames processed, lays
//! the processed frames down again at the synthesis hop, and resamples the
//! stretched signal by the scale.  The plan of a run holds the size of each
//! of these steps, so that a caller can tell beforehand whether the run is
//! possible.
use crate::framing::{
    frame,
    frame_count,
    frame_views,
    is_framing,
    is_overlap_add,
    overlap_add,
    overlap_add_len,
    uniform,
};
use crate::resample::{
    interpolation_of,
    is_resampling,
    lemma_source_index_in_range,
    resampled_len,
    sample_audio,
    scaled_hop,
    source_offset,
    Scale,
};
use vstd::prelude::*;

verus! {

/// The sizes of one run of the phase vocoder.
#[derive(Clone, Copy, Debug, PartialEq, Eq, Structural)]
pub struct VocoderPlan {
    /// Number of frames that the signal is cut into.
    pub frames: usize,
    /// Samples between the starts of two frames of the synthesis.
    pub hops: usize,
    /// Length of the signal after overlap-add at the synthesis hop.
    pub stretched_len: usize,
    /// Length of the transposed signal.
    pub output_len: usize,
}

/// The reasons for which a run of the phase vocoder is not possible.
#[derive(Clone, Copy, Debug, PartialEq, Eq, Structural)]
pub enum VocoderError {
    /// A frame is longer than the whole signal.
    FrameLargerThanSignal,
    /// The analysis hop is zero.
    NoHop,
    /// One of the sizes is beyond what a `usize` holds.
    TooLong,
    /// The processing of the frames gave back another number of frames, or
    /// frames of another size, than it was given.
    FramesLost,
}

impl VocoderError {
    /// The text of the message for this error.
    pub open spec fn text(self) -> Seq<char> {
        match self {
            VocoderError::FrameLargerThanSignal => "Provided frame size is greater than signal length!"@,
            VocoderError::NoHop => "Provided hop between frames is zero!"@,
            VocoderError::TooLong => "Transposed signal would be too long!"@,
            VocoderError::FramesLost => "Processed frames do not match the frames of the signal!"@,
        }
    }

    /// The message shown to the user for this error.
    pub fn message(&self) -> (text: &'static str)
        ensures
            text@ == self.text(),
    {
        match self {
            VocoderError::FrameLargerThanSignal => "Provided frame size is greater than signal length!",
            VocoderError::NoHop => "Provided hop between frames is zero!",
            VocoderError::TooLong => "Transposed signal would be too long!",
            VocoderError::FramesLost => "Processed frames do not match the frames of the signal!",
        }
    }
}

/// Length of the stretched signal of a run.
pub open spec fn planned_stretch(signal_len: int, fsize: int, hopa: int, num: int, den: int) -> int {
    overlap_add_len(frame_count(signal_len, fsize, hopa), fsize, scaled_hop(hopa, num, den))
}

/// Length of the transposed signal of a run.
pub open spec fn planned_output(signal_len: int, fsize: int, hopa: int, num: int, den: int) -> int {
    resampled_len(planned_stretch(signal_len, fsize, hopa, num, den), num, den)
}

/// Every size of the run fits into a `usize`.
pub open spec fn plan_fits(signal_len: int, fsize: int, hopa: int, num: int, den: int) -> bool {
    &&& frame_count(signal_len, fsize, hopa) <= usize::MAX
    &&& scaled_hop(hopa, num, den) <= usize::MAX
    &&& planned_stretch(signal_len, fsize, hopa, num, den) <= usize::MAX
    &&& planned_output(signal_len, fsize, hopa, num, den) <= usize::MAX
}

/// Plans a run of the phase vocoder over a signal of `signal_len` samples
/// with frames of `fsize` samples, `hopa` samples apart, and the scale
/// `scale`.
pub fn plan_phase_vocoder(signal_len: usize, fsize: usize, hopa: usize, scale: Scale) -> (plan:
    Result<VocoderPlan, VocoderError>)
    ensures
        match plan {
            Ok(p) => {
                &&& fsize <= signal_len
                &&& hopa > 0
                &&& p.frames == frame_count(signal_len as int, fsize as int, hopa as int)
                &&& p.frames >= 1
                &&& p.hops == scaled_hop(hopa as int, scale.num(), scale.den())
                &&& p.stretched_len == planned_stretch(
                    signal_len as int,
                    fsize as int,
                    hopa as int,
                    scale.num(),
                    scale.den(),
                )
                &&& p.output_len == planned_output(
                    signal_len as int,
                    fsize as int,
                    hopa as int,
                    scale.num(),
                    scale.den(),
                )
            },
            Err(VocoderError::FrameLargerThanSignal) => fsize > signal_len,
            Err(VocoderError::NoHop) => fsize <= signal_len && hopa == 0,
            Err(VocoderError::TooLong) => fsize <= signal_len && hopa > 0 && !plan_fits(
                signal_len as int,
                fsize as int,
                hopa as int,
                scale.num(),
                scale.den(),
            ),
            Err(VocoderError::FramesLost) => false,
        },
{
    if fsize > signal_len {
        return Err(VocoderError::FrameLargerThanSignal);
    }
    if hopa == 0 {
        return Err(VocoderError::NoHop);
    }
    let steps: usize = (signal_len - fsize) / hopa;
    if steps == usize::MAX {
        return Err(VocoderError::TooLong);
    }
    let frames: usize = steps + 1;
    let hops: usize = match scale.synthesis_hop(hopa) {
        Some(h) => h,
        None => {
            return Err(VocoderError::TooLong);
        },
    };
    assert(0 <= steps * hops <= u128::MAX) by (nonlinear_arith)
        requires
            0 <= steps <= u64::MAX,
            0 <= hops <= u64::MAX,
    ;
    assert(fsize + steps * hops <= u128::MAX) by (nonlinear_arith)
        requires
            0 <= steps <= u64::MAX,
            0 <= hops <= u64::MAX,
            0 <= fsize <= u64::MAX,
    ;
    let stretched: u128 = fsize as u128 + steps as u128 * hops as u128;
    if stretched > usize::MAX as u128 {
        return Err(VocoderError::TooLong);
    }
    let stretched_len: usize = stretched as usize;
    let output_len: usize = match scale.resampled_len(stretched_len) {
        Some(n) => n,
        None => {
            return Err(VocoderError::TooLong);
        },
    };
    Ok(VocoderPlan { frames, hops, stretched_len, output_len })
}

/// The processed frames are as many as the frames of the signal and hold
/// `fsize` samples each.
pub open spec fn keeps_shape<T>(frames: Seq<Vec<T>>, processed: Seq<Vec<T>>, fsize: int) -> bool {
    &&& processed.len() == frames.len()
    &&& uniform(frame_views(processed), fsize)
}

/// `processed` is what `process` made of the frames of `signal` and of the
/// synthesis hop.
pub open spec fn is_processing<T, P: Fn(Vec<Vec<T>>, usize) -> Vec<Vec<T>>>(
    signal: Seq<T>,
    fsize: int,
    hopa: int,
    scale: Scale,
    process: P,
    frames: Vec<Vec<T>>,
    processed: Vec<Vec<T>>,
) -> bool {
    &&& is_framing(signal, fsize, hopa, frame_views(frames@))
    &&& call_ensures(
        process,
        (frames, scaled_hop(hopa, scale.num(), scale.den()) as usize),
        processed,
    )
}

/// `out` is what a run of the vocoder over `signal` gives: `processed` is
/// what `process` made of the frames of the signal, `stretched` is the
/// overlap-add of the processed frames at the synthesis hop, and `out` is
/// `stretched` resampled by the scale.
pub open spec fn is_vocoder_run<
    T,
    P: Fn(Vec<Vec<T>>, usize) -> Vec<Vec<T>>,
    C: Fn(T, T) -> T,
    I: Fn(T, T, u64, u64) -> T,
>(
    signal: Seq<T>,
    fsize: int,
    hopa: int,
    scale: Scale,
    zero: T,
    process: P,
    combine: C,
    interpolate: I,
    frames: Vec<Vec<T>>,
    processed: Vec<Vec<T>>,
    stretched: Seq<T>,
    out: Seq<T>,
) -> bool {
    &&& is_processing(signal, fsize, hopa, scale, process, frames, processed)
    &&& keeps_shape(frames@, processed@, fsize)
    &&& is_overlap_add(
        frame_views(processed@),
        scaled_hop(hopa, scale.num(), scale.den()),
        zero,
        combine,
        stretched,
    )
    &&& is_resampling(stretched, scale.num(), scale.den(), interpolate, out)
}

fn has_shape<T>(processed: &Vec<Vec<T>>, count: usize, fsize: usize) -> (kept: bool)
    ensures
        kept == (processed@.len() == count && uniform(frame_views(processed@), fsize as int)),
{
    if processed.len() != count {
        return false;
    }
    let ghost views = frame_views(processed@);
    let mut i: usize = 0;
    while i < processed.len()
        invariant
            i <= processed@.len(),
            views == frame_views(processed@),
            forall|k: int| 0 <= k < i ==> (#[trigger] views[k]).len() == fsize,
        decreases processed@.len() - i,
    {
        assert(views[i as int] == processed@[i as int]@);
        if processed[i].len() != fsize {
            return false;
        }
        i = i + 1;
    }
    true
}

/// Transposes `signal` with the phase vocoder: cuts it into frames of
/// `fsize` samples, `hopa` samples apart, hands the frames and the
/// synthesis hop to `process`, adds the processed frames up at the synthesis
/// hop, with `combine` onto `zero`, and resamples the result by `scale` with
/// `interpolate`.
///
/// The run is refused where the plan of it is, and given up where `process`
/// does not give back as many frames of `fsize` samples as it was given.
pub fn phase_vocoder_transposer<
    T: Copy,
    P: Fn(Vec<Vec<T>>, usize) -> Vec<Vec<T>>,
    C: Fn(T, T) -> T,
    I: Fn(T, T, u64, u64) -> T,
>(
    signal: &[T],
    fsize: usize,
    hopa: usize,
    scale: Scale,
    zero: T,
    process: P,
    combine: C,
    interpolate: I,
) -> (result: Result<Vec<T>, VocoderError>)
    requires
        forall|frames: Vec<Vec<T>>, hops: usize|
            is_framing(signal@, fsize as int, hopa as int, frame_views(frames@)) && hops
                == scaled_hop(hopa as int, scale.num(), scale.den()) ==> #[trigger] call_requires(
                process,
                (frames, hops),
            ),
        forall|a: T, b: T| #[trigger] call_requires(combine, (a, b)),
        forall|a: T, b: T, offset: u64, den: u64|
            den == scale.den() && 0 < offset < den ==> #[trigger] call_requires(
                interpolate,
                (a, b, offset, den),
            ),
    ensures
        match result {
            Ok(out) => {
                &&& fsize <= signal@.len()
                &&& hopa > 0
                &&& out@.len() == planned_output(
                    signal@.len() as int,
                    fsize as int,
                    hopa as int,
                    scale.num(),
                    scale.den(),
                )
                &&& exists|frames: Vec<Vec<T>>, processed: Vec<Vec<T>>, stretched: Seq<T>|
                    #[trigger] is_vocoder_run(
                        signal@,
                        fsize as int,
                        hopa as int,
                        scale,
                        zero,
                        process,
                        combine,
                        interpolate,
                        frames,
                        processed,
                        stretched,
                        out@,
                    )
            },
            Err(VocoderError::FrameLargerThanSignal) => fsize > signal@.len(),
            Err(VocoderError::NoHop) => fsize <= signal@.len() && hopa == 0,
            Err(VocoderError::TooLong) => fsize <= signal@.len() && hopa > 0 && !plan_fits(
                signal@.len() as int,
                fsize as int,
                hopa as int,
                scale.num(),
                scale.den(),
            ),
            Err(VocoderError::FramesLost) => {
                &&& fsize <= signal@.len()
                &&& hopa > 0
                &&& plan_fits(
                    signal@.len() as int,
                    fsize as int,
                    hopa as int,
                    scale.num(),
                    scale.den(),
                )
                &&& exists|frames: Vec<Vec<T>>, processed: Vec<Vec<T>>|
                    #[trigger] is_processing(
                        signal@,
                        fsize as int,
                        hopa as int,
                        scale,
                        process,
                        frames,
                        processed,
                    ) && !keeps_shape(frames@, processed@, fsize as int)
            },
        },
{
    let plan = match plan_phase_vocoder(signal.len(), fsize, hopa, scale) {
        Ok(plan) => plan,
        Err(why) => {
            return Err(why);
        },
    };
    let frames: Vec<Vec<T>> = frame(signal, fsize, hopa);
    let ghost framed = frames;
    let processed: Vec<Vec<T>> = process(frames, plan.hops);
    assert(is_processing(signal@, fsize as int, hopa as int, scale, process, framed, processed));
    if !has_shape(&processed, plan.frames, fsize) {
        return Err(VocoderError::FramesLost);
    }
    assert(frame_views(processed@)[0] == processed@[0]@);
    let stretched: Vec<T> = overlap_add(processed.as_slice(), plan.hops, zero, combine);
    let den: u64 = scale.denominator();
    proof {
        assert forall|i: int|
            0 <= i < resampled_len(stretched@.len() as int, scale.num(), scale.den())
                && source_offset(i, scale.num(), scale.den()) != 0 implies call_requires(
            interpolate,
            #[trigger] interpolation_of(stretched@, scale.num(), scale.den(), i),
        ) by {
            lemma_source_index_in_range(stretched@.len() as int, scale.num(), den as int, i);
        }
    }
    let out: Vec<T> = sample_audio(stretched.as_slice(), scale, interpolate);
    assert(is_vocoder_run(
        signal@,
        fsize as int,
        hopa as int,
        scale,
        zero,
        process,
        combine,
        interpolate,
        framed,
        processed,
        stretched@,
        out@,
    ));
    Ok(out)
}

} // verus!
