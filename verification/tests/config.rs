use pitch::config::ptconfig::{
    PTConfiguration, RealTimeSubCommand, Transposition, OUTPUT_DIRECTORY,
};
use pitch::convert::{output_encoding, SampleEncoding};
use pitch::error::TransposeError;
use pitch::resample::Scale;

fn basic() -> PTConfiguration {
    PTConfiguration::Basic {
        in_path: "resources/a.wav".to_string(),
        out_filename: "up.wav".to_string(),
        shift: 3,
    }
}

fn vocoder() -> PTConfiguration {
    PTConfiguration::PhaseVocoder {
        in_path: "resources/b.wav".to_string(),
        out_filename: "tuned.wav".to_string(),
        fsize: 1024,
        hopa: 256,
    }
}

fn same_scale(chosen: &Transposition, num: i64, den: u64, fsize: usize, hopa: usize) -> bool {
    match chosen {
        Transposition::PhaseVocoder { fsize: f, hopa: h, scale } => {
            *f == fsize && *h == hopa && scale.numerator() == num && scale.denominator() == den
        }
        Transposition::Basic { .. } => false,
    }
}

#[test]
fn paths_of_a_configuration() {
    assert_eq!(basic().in_path(), "resources/a.wav");
    assert_eq!(basic().out_filename(), "up.wav");
    assert_eq!(vocoder().in_path(), "resources/b.wav");
    assert_eq!(vocoder().out_filename(), "tuned.wav");
}

#[test]
fn output_goes_into_the_output_directory() {
    assert_eq!(OUTPUT_DIRECTORY, "resources/outputs/");
    assert_eq!(basic().output_path(), "resources/outputs/up.wav");
    assert_eq!(vocoder().output_path(), "resources/outputs/tuned.wav");
    let odd = PTConfiguration::Basic {
        in_path: String::new(),
        out_filename: "../x/é.wav".to_string(),
        shift: 0,
    };
    assert_eq!(odd.output_path(), "resources/outputs/../x/é.wav");
}

#[test]
fn basic_configuration_needs_no_detection() {
    assert!(!basic().needs_detection());
    assert!(matches!(basic().transposition(None), Ok(Transposition::Basic { shift: 3 })));
    let detected = Scale::new(5, 4);
    assert!(matches!(basic().transposition(detected), Ok(Transposition::Basic { shift: 3 })));
}

#[test]
fn vocoder_configuration_takes_the_detected_scale() {
    assert!(vocoder().needs_detection());
    let chosen = vocoder().transposition(Scale::new(5, 4)).ok().unwrap();
    assert!(same_scale(&chosen, 5, 4, 1024, 256));
}

#[test]
fn vocoder_configuration_without_a_detected_scale_gives_up() {
    assert!(matches!(vocoder().transposition(None), Err(TransposeError::NearestNoteNotFound)));
}

#[test]
fn real_time_configuration_prefers_the_scale_asked_for() {
    let asked = RealTimeSubCommand::PhaseVocoder { fsize: 512, hopa: 128, shift: Scale::new(3, 2) };
    assert!(!asked.needs_detection());
    let chosen = asked.transposition(Scale::new(7, 5)).ok().unwrap();
    assert!(same_scale(&chosen, 3, 2, 512, 128));
    let chosen = asked.transposition(None).ok().unwrap();
    assert!(same_scale(&chosen, 3, 2, 512, 128));
}

#[test]
fn real_time_configuration_without_a_scale_detects_one() {
    let auto = RealTimeSubCommand::PhaseVocoder { fsize: 512, hopa: 128, shift: None };
    assert!(auto.needs_detection());
    let chosen = auto.transposition(Scale::new(7, 5)).ok().unwrap();
    assert!(same_scale(&chosen, 7, 5, 512, 128));
    assert!(matches!(auto.transposition(None), Err(TransposeError::NearestNoteNotFound)));
}

#[test]
fn real_time_basic_configuration() {
    let basic = RealTimeSubCommand::Basic { shift: -12 };
    assert!(!basic.needs_detection());
    assert!(matches!(basic.transposition(None), Ok(Transposition::Basic { shift: -12 })));
}

#[test]
fn encodings_by_bit_depth() {
    assert_eq!(output_encoding(8), Ok(SampleEncoding::Eight));
    assert_eq!(output_encoding(16), Ok(SampleEncoding::Sixteen));
    assert_eq!(output_encoding(24), Ok(SampleEncoding::TwentyFour));
    assert_eq!(output_encoding(32), Ok(SampleEncoding::ThirtyTwoFloat));
}

#[test]
fn other_bit_depths_are_refused() {
    for bits in 0u16..=1000 {
        if bits != 8 && bits != 16 && bits != 24 && bits != 32 {
            assert_eq!(output_encoding(bits), Err(TransposeError::UnsupportedCodec));
        }
    }
    assert_eq!(output_encoding(u16::MAX), Err(TransposeError::UnsupportedCodec));
}

#[test]
fn messages_of_the_errors() {
    assert_eq!(TransposeError::NearestNoteNotFound.message(), "could not find nearest note");
    assert_eq!(TransposeError::UnsupportedCodec.message(), "Unsupported codec");
    assert_eq!(
        TransposeError::OutputNotCreated.message(),
        "could not create file for transposition"
    );
}

#[test]
fn plan_of_a_basic_run() {
    let run = basic().plan(16, None).ok().unwrap();
    assert!(matches!(run.transposition, Transposition::Basic { shift: 3 }));
    assert_eq!(run.encoding, SampleEncoding::Sixteen);
    assert_eq!(run.out_path, "resources/outputs/up.wav");
}

#[test]
fn plan_of_a_vocoder_run() {
    let run = vocoder().plan(32, Scale::new(9, 8)).ok().unwrap();
    assert!(same_scale(&run.transposition, 9, 8, 1024, 256));
    assert_eq!(run.encoding, SampleEncoding::ThirtyTwoFloat);
    assert_eq!(run.out_path, "resources/outputs/tuned.wav");
}

#[test]
fn plan_stops_at_the_first_thing_that_fails() {
    assert!(matches!(basic().plan(12, None), Err(TransposeError::UnsupportedCodec)));
    assert!(matches!(vocoder().plan(16, None), Err(TransposeError::NearestNoteNotFound)));
    assert!(matches!(vocoder().plan(12, None), Err(TransposeError::NearestNoteNotFound)));
    assert!(matches!(vocoder().plan(12, Scale::new(9, 8)), Err(TransposeError::UnsupportedCodec)));
}
