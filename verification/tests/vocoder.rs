use pitch::framing::{frame, overlap_add};
use pitch::resample::{sample_audio, Scale};
use pitch::vocoder::{phase_vocoder_transposer, plan_phase_vocoder, VocoderError, VocoderPlan};

#[test]
fn plan_of_a_short_run() {
    let scale = Scale::new(3, 2).unwrap();
    let plan = plan_phase_vocoder(8, 3, 2, scale);
    assert_eq!(plan, Ok(VocoderPlan { frames: 3, hops: 3, stretched_len: 9, output_len: 6 }));
}

#[test]
fn plan_of_a_usual_run() {
    let scale = Scale::new(2, 1).unwrap();
    let plan = plan_phase_vocoder(48000, 1024, 256, scale).unwrap();
    assert_eq!(plan.frames, (48000 - 1024) / 256 + 1);
    assert_eq!(plan.hops, 512);
    assert_eq!(plan.stretched_len, 1024 + (plan.frames - 1) * 512);
    assert_eq!(plan.output_len, (plan.stretched_len + 1) / 2);
}

#[test]
fn plan_agrees_with_the_steps_of_a_run() {
    let signal: Vec<i64> = (0..50).collect();
    for (num, den) in [(1i64, 1u64), (3, 2), (2, 3), (5, 4), (1, 7), (9, 1)] {
        let scale = Scale::new(num, den).unwrap();
        for fsize in 1usize..9 {
            for hopa in 1usize..=fsize {
                let plan = plan_phase_vocoder(signal.len(), fsize, hopa, scale).unwrap();
                let frames = frame(&signal, fsize, hopa);
                assert_eq!(frames.len(), plan.frames);
                let stretched = overlap_add(&frames, plan.hops, 0, |a: i64, b: i64| a + b);
                assert_eq!(stretched.len(), plan.stretched_len);
                let out = sample_audio(&stretched, scale, |a: i64, _b: i64, _o: u64, _d: u64| a);
                assert_eq!(out.len(), plan.output_len);
            }
        }
    }
}

#[test]
fn plan_for_a_scale_that_is_not_positive() {
    let scale = Scale::new(-1, 2).unwrap();
    let plan = plan_phase_vocoder(10, 4, 2, scale);
    assert_eq!(plan, Ok(VocoderPlan { frames: 4, hops: 0, stretched_len: 4, output_len: 0 }));
}

#[test]
fn frame_longer_than_the_signal_is_refused() {
    let scale = Scale::unity();
    assert_eq!(plan_phase_vocoder(8, 9, 2, scale), Err(VocoderError::FrameLargerThanSignal));
    assert_eq!(plan_phase_vocoder(0, 1, 0, scale), Err(VocoderError::FrameLargerThanSignal));
    assert!(plan_phase_vocoder(8, 8, 2, scale).is_ok());
}

#[test]
fn hop_of_zero_is_refused() {
    let scale = Scale::unity();
    assert_eq!(plan_phase_vocoder(8, 3, 0, scale), Err(VocoderError::NoHop));
}

#[test]
fn sizes_beyond_usize_are_refused() {
    let wide = Scale::new(i64::MAX, 1).unwrap();
    assert_eq!(plan_phase_vocoder(usize::MAX, 4, usize::MAX / 2, wide), Err(VocoderError::TooLong));
    let tiny = Scale::new(1, u64::MAX).unwrap();
    assert_eq!(plan_phase_vocoder(usize::MAX, 4, 1, tiny), Err(VocoderError::TooLong));
    assert_eq!(plan_phase_vocoder(usize::MAX, 0, 1, Scale::unity()), Err(VocoderError::TooLong));
}

#[test]
fn messages_of_the_plan_errors() {
    assert_eq!(
        VocoderError::FrameLargerThanSignal.message(),
        "Provided frame size is greater than signal length!"
    );
    assert_eq!(VocoderError::NoHop.message(), "Provided hop between frames is zero!");
    assert_eq!(VocoderError::TooLong.message(), "Transposed signal would be too long!");
    assert_eq!(
        VocoderError::FramesLost.message(),
        "Processed frames do not match the frames of the signal!"
    );
}

fn sum(a: i64, b: i64) -> i64 {
    a + b
}

fn left(a: i64, _b: i64, _offset: u64, _den: u64) -> i64 {
    a
}

#[test]
fn run_goes_through_framing_processing_overlap_add_and_resampling() {
    let signal: Vec<i64> = (1..=8).collect();
    let scale = Scale::new(3, 2).unwrap();
    let seen = std::cell::RefCell::new(Vec::new());
    let out = phase_vocoder_transposer(
        &signal,
        3,
        2,
        scale,
        0,
        |frames: Vec<Vec<i64>>, hops: usize| {
            seen.borrow_mut().push((frames.clone(), hops));
            frames.iter().map(|f| f.iter().map(|x| 10 * x).collect()).collect()
        },
        sum,
        left,
    );
    assert_eq!(
        seen.into_inner(),
        vec![(vec![vec![1, 2, 3], vec![3, 4, 5], vec![5, 6, 7]], 3)]
    );
    // stretched: 10 20 30 30 40 50 50 60 70, then every point 1.5 apart
    assert_eq!(out, Ok(vec![10, 20, 30, 40, 50, 60]));
}

#[test]
fn run_with_overlapping_synthesis_frames() {
    let signal: Vec<i64> = (1..=8).collect();
    let scale = Scale::new(1, 2).unwrap();
    let out = phase_vocoder_transposer(&signal, 3, 2, scale, 0, |f: Vec<Vec<i64>>, _h: usize| f, sum, left);
    // hop 1: 1, 2+3, 3+4+5, 5+6, 7 and every point half a sample apart
    assert_eq!(out, Ok(vec![1, 1, 5, 5, 12, 12, 11, 11, 7, 7]));
}

#[test]
fn run_by_a_scale_of_one_with_frames_side_by_side_restores_the_signal() {
    let signal: Vec<i64> = (1..=12).collect();
    let out = phase_vocoder_transposer(
        &signal,
        4,
        4,
        Scale::unity(),
        0,
        |f: Vec<Vec<i64>>, _h: usize| f,
        sum,
        left,
    );
    assert_eq!(out, Ok(signal));
}

#[test]
fn run_is_as_long_as_planned() {
    let signal: Vec<i64> = (0..200).collect();
    for (num, den) in [(1i64, 1u64), (3, 2), (2, 3), (5, 4), (-1, 4)] {
        let scale = Scale::new(num, den).unwrap();
        let plan = plan_phase_vocoder(signal.len(), 16, 4, scale).unwrap();
        let out = phase_vocoder_transposer(
            &signal,
            16,
            4,
            scale,
            0,
            |f: Vec<Vec<i64>>, _h: usize| f,
            sum,
            left,
        )
        .unwrap();
        assert_eq!(out.len(), plan.output_len);
    }
}

#[test]
fn run_is_refused_where_the_plan_is() {
    let signal: Vec<i64> = (1..=8).collect();
    let same = |f: Vec<Vec<i64>>, _h: usize| f;
    assert_eq!(
        phase_vocoder_transposer(&signal, 9, 2, Scale::unity(), 0, same, sum, left),
        Err(VocoderError::FrameLargerThanSignal)
    );
    assert_eq!(
        phase_vocoder_transposer(&signal, 3, 0, Scale::unity(), 0, same, sum, left),
        Err(VocoderError::NoHop)
    );
    let tiny = Scale::new(1, u64::MAX).unwrap();
    assert_eq!(
        phase_vocoder_transposer(&signal, 3, 2, tiny, 0, same, sum, left),
        Err(VocoderError::TooLong)
    );
}

#[test]
fn run_is_given_up_where_frames_are_lost() {
    let signal: Vec<i64> = (1..=8).collect();
    let one_less = |mut f: Vec<Vec<i64>>, _h: usize| {
        f.pop();
        f
    };
    assert_eq!(
        phase_vocoder_transposer(&signal, 3, 2, Scale::unity(), 0, one_less, sum, left),
        Err(VocoderError::FramesLost)
    );
    let shorter = |mut f: Vec<Vec<i64>>, _h: usize| {
        f[1].pop();
        f
    };
    assert_eq!(
        phase_vocoder_transposer(&signal, 3, 2, Scale::unity(), 0, shorter, sum, left),
        Err(VocoderError::FramesLost)
    );
    let none = |_f: Vec<Vec<i64>>, _h: usize| Vec::new();
    assert_eq!(
        phase_vocoder_transposer(&signal, 3, 2, Scale::unity(), 0, none, sum, left),
        Err(VocoderError::FramesLost)
    );
}
