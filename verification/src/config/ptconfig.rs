//! Configurations of the transposer and the transposition that each one
//! stands for.
use crate::convert::{encoding_of, output_encoding, SampleEncoding};
use crate::error::TransposeError;
use crate::resample::Scale;
use vstd::prelude::*;
use vstd::string::StringExecFns;

verus! {

/// Configuration of a transposition of a waveform file.
pub enum PTConfiguration {
    /// Shift the spectrum by a number of semitones.
    Basic {
        /// Path of the file to transform.
        in_path: String,
        /// Name of the file to write.
        out_filename: String,
        /// Semitones to shift by; a negative number lowers the pitch.
        shift: i32,
    },
    /// Transpose with the phase vocoder to the nearest reference note.
    PhaseVocoder {
        /// Path of the file to transform.
        in_path: String,
        /// Name of the file to write.
        out_filename: String,
        /// Samples in a frame.
        fsize: usize,
        /// Samples between the starts of two frames of the analysis.
        hopa: usize,
    },
}

/// Configuration of a transposition of captured audio.
#[allow(inconsistent_fields)]
pub enum RealTimeSubCommand {
    /// Shift the spectrum by a number of semitones.
    Basic {
        /// Semitones to shift by; a negative number lowers the pitch.
        shift: i32,
    },
    /// Transpose with the phase vocoder.
    PhaseVocoder {
        /// Samples in a frame.
        fsize: usize,
        /// Samples between the starts of two frames of the analysis.
        hopa: usize,
        /// Scale to transpose by; without one the signal is transposed to
        /// the nearest reference note.
        shift: Option<Scale>,
    },
}

/// What to do to a signal, with every parameter settled.
pub enum Transposition {
    /// Shift the spectrum by `shift` semitones.
    Basic { shift: i32 },
    /// Run the phase vocoder with frames of `fsize` samples, `hopa` samples
    /// apart, and the scale `scale`.
    PhaseVocoder { fsize: usize, hopa: usize, scale: Scale },
}

/// What the transposition of a file comes to: what to do to the signal, and
/// how and where to write the result.
pub struct OfflineRun {
    /// The transposition to run.
    pub transposition: Transposition,
    /// The encoding to write the transposed signal in.
    pub encoding: SampleEncoding,
    /// The path of the file to write.
    pub out_path: String,
}

/// Directory that transposed files are written to.
pub const OUTPUT_DIRECTORY: &'static str = "resources/outputs/";

/// The transposition that the phase vocoder runs for frames of `fsize`
/// samples, `hopa` samples apart, by the scale asked for or else by the one
/// detected in the signal.
pub open spec fn vocoder_choice(
    fsize: usize,
    hopa: usize,
    asked: Option<Scale>,
    detected: Option<Scale>,
) -> Result<Transposition, TransposeError> {
    match asked {
        Some(scale) => Ok(Transposition::PhaseVocoder { fsize, hopa, scale }),
        None => match detected {
            Some(scale) => Ok(Transposition::PhaseVocoder { fsize, hopa, scale }),
            None => Err(TransposeError::NearestNoteNotFound),
        },
    }
}

impl PTConfiguration {
    /// Path of the file to transform.
    pub open spec fn in_path_view(&self) -> Seq<char> {
        match self {
            PTConfiguration::Basic { in_path, .. } => in_path@,
            PTConfiguration::PhaseVocoder { in_path, .. } => in_path@,
        }
    }

    /// Name of the file to write.
    pub open spec fn out_filename_view(&self) -> Seq<char> {
        match self {
            PTConfiguration::Basic { out_filename, .. } => out_filename@,
            PTConfiguration::PhaseVocoder { out_filename, .. } => out_filename@,
        }
    }

    /// The transposition that this configuration stands for once the scale
    /// detected in the signal is known.
    pub open spec fn choice(&self, detected: Option<Scale>) -> Result<
        Transposition,
        TransposeError,
    > {
        match self {
            PTConfiguration::Basic { shift, .. } => Ok(Transposition::Basic { shift: *shift }),
            PTConfiguration::PhaseVocoder { fsize, hopa, .. } => vocoder_choice(
                *fsize,
                *hopa,
                None,
                detected,
            ),
        }
    }

    /// Path of the file to transform.
    pub fn in_path(&self) -> (path: &String)
        ensures
            path@ == self.in_path_view(),
    {
        match self {
            PTConfiguration::Basic { in_path, .. } => in_path,
            PTConfiguration::PhaseVocoder { in_path, .. } => in_path,
        }
    }

    /// Name of the file to write.
    pub fn out_filename(&self) -> (name: &String)
        ensures
            name@ == self.out_filename_view(),
    {
        match self {
            PTConfiguration::Basic { out_filename, .. } => out_filename,
            PTConfiguration::PhaseVocoder { out_filename, .. } => out_filename,
        }
    }

    /// Path of the file to write: the name given, taken as it is, inside the
    /// output directory.
    pub fn output_path(&self) -> (path: String)
        ensures
            path@ == OUTPUT_DIRECTORY@ + self.out_filename_view(),
    {
        let mut path: String = String::from_str(OUTPUT_DIRECTORY);
        path.append(self.out_filename().as_str());
        path
    }

    /// Settles the whole run for a file that stores its samples in
    /// `bits_per_sample` bits, given the scale detected in its signal, if any
    /// was.  A transposition that cannot be settled stops the run before the
    /// encoding is looked at.
    pub fn plan(&self, bits_per_sample: u16, detected: Option<Scale>) -> (run: Result<
        OfflineRun,
        TransposeError,
    >)
        ensures
            match run {
                Ok(r) => {
                    &&& self.choice(detected) == Ok::<Transposition, TransposeError>(
                        r.transposition,
                    )
                    &&& encoding_of(bits_per_sample) == Some(r.encoding)
                    &&& r.out_path@ == OUTPUT_DIRECTORY@ + self.out_filename_view()
                },
                Err(why) => match self.choice(detected) {
                    Err(first) => why == first,
                    Ok(_) => encoding_of(bits_per_sample) is None && why
                        == TransposeError::UnsupportedCodec,
                },
            },
    {
        let transposition = match self.transposition(detected) {
            Ok(chosen) => chosen,
            Err(why) => {
                return Err(why);
            },
        };
        let encoding = match output_encoding(bits_per_sample) {
            Ok(encoding) => encoding,
            Err(why) => {
                return Err(why);
            },
        };
        Ok(OfflineRun { transposition, encoding, out_path: self.output_path() })
    }

    /// Whether the scale has to be detected in the signal.
    pub fn needs_detection(&self) -> (needed: bool)
        ensures
            needed == (self is PhaseVocoder),
    {
        match self {
            PTConfiguration::Basic { .. } => false,
            PTConfiguration::PhaseVocoder { .. } => true,
        }
    }

    /// Settles the transposition to run, given the scale detected in the
    /// signal, if any was.
    pub fn transposition(&self, detected: Option<Scale>) -> (chosen: Result<
        Transposition,
        TransposeError,
    >)
        ensures
            chosen == self.choice(detected),
    {
        match self {
            PTConfiguration::Basic { shift, .. } => Ok(Transposition::Basic { shift: *shift }),
            PTConfiguration::PhaseVocoder { fsize, hopa, .. } => choose_for_vocoder(
                *fsize,
                *hopa,
                None,
                detected,
            ),
        }
    }
}

impl RealTimeSubCommand {
    /// The transposition that this configuration stands for once the scale
    /// detected in the signal is known.
    pub open spec fn choice(&self, detected: Option<Scale>) -> Result<
        Transposition,
        TransposeError,
    > {
        match self {
            RealTimeSubCommand::Basic { shift } => Ok(Transposition::Basic { shift: *shift }),
            RealTimeSubCommand::PhaseVocoder { fsize, hopa, shift } => vocoder_choice(
                *fsize,
                *hopa,
                *shift,
                detected,
            ),
        }
    }

    /// Whether the scale has to be detected in the signal.
    pub fn needs_detection(&self) -> (needed: bool)
        ensures
            needed == (self matches RealTimeSubCommand::PhaseVocoder { shift, .. } && shift is None),
    {
        match self {
            RealTimeSubCommand::Basic { .. } => false,
            RealTimeSubCommand::PhaseVocoder { shift, .. } => shift.is_none(),
        }
    }

    /// Settles the transposition to run, given the scale detected in the
    /// signal, if any was.
    pub fn transposition(&self, detected: Option<Scale>) -> (chosen: Result<
        Transposition,
        TransposeError,
    >)
        ensures
            chosen == self.choice(detected),
    {
        match self {
            RealTimeSubCommand::Basic { shift } => Ok(Transposition::Basic { shift: *shift }),
            RealTimeSubCommand::PhaseVocoder { fsize, hopa, shift } => choose_for_vocoder(
                *fsize,
                *hopa,
                *shift,
                detected,
            ),
        }
    }
}

fn choose_for_vocoder(
    fsize: usize,
    hopa: usize,
    asked: Option<Scale>,
    detected: Option<Scale>,
) -> (chosen: Result<Transposition, TransposeError>)
    ensures
        chosen == vocoder_choice(fsize, hopa, asked, detected),
{
    match asked {
        Some(scale) => Ok(Transposition::PhaseVocoder { fsize, hopa, scale }),
        None => match detected {
            Some(scale) => Ok(Transposition::PhaseVocoder { fsize, hopa, scale }),
            None => Err(TransposeError::NearestNoteNotFound),
        },
    }
}

} // verus!
