//! The sample encodings of a waveform file.
use crate::error::TransposeError;
use vstd::prelude::*;

verus! {

/// How the samples of a waveform file are stored.
#[derive(Clone, Copy, Debug, PartialEq, Eq, Structural)]
pub enum SampleEncoding {
    /// Unsigned whole numbers of 8 bits.
    Eight,
    /// Signed whole numbers of 16 bits.
    Sixteen,
    /// Signed whole numbers of 24 bits.
    TwentyFour,
    /// Floating-point numbers of 32 bits.
    ThirtyTwoFloat,
}

/// The encoding that goes with a file's bit depth, if it is one that a
/// transposed signal can be written in.
pub open spec fn encoding_of(bits_per_sample: u16) -> Option<SampleEncoding> {
    if bits_per_sample == 8 {
        Some(SampleEncoding::Eight)
    } else if bits_per_sample == 16 {
        Some(SampleEncoding::Sixteen)
    } else if bits_per_sample == 24 {
        Some(SampleEncoding::TwentyFour)
    } else if bits_per_sample == 32 {
        Some(SampleEncoding::ThirtyTwoFloat)
    } else {
        None
    }
}

/// Chooses the encoding in which to write a transposed signal: the one of
/// the file that the signal was read from, told by its bit depth.  Any depth
/// other than 8, 16, 24 or 32 bits is refused.
pub fn output_encoding(bits_per_sample: u16) -> (encoding: Result<SampleEncoding, TransposeError>)
    ensures
        match encoding {
            Ok(e) => encoding_of(bits_per_sample) == Some(e),
            Err(why) => encoding_of(bits_per_sample) is None && why
                == TransposeError::UnsupportedCodec,
        },
{
    if bits_per_sample == 8 {
        Ok(SampleEncoding::Eight)
    } else if bits_per_sample == 16 {
        Ok(SampleEncoding::Sixteen)
    } else if bits_per_sample == 24 {
        Ok(SampleEncoding::TwentyFour)
    } else if bits_per_sample == 32 {
        Ok(SampleEncoding::ThirtyTwoFloat)
    } else {
        Err(TransposeError::UnsupportedCodec)
    }
}

} // verus!
