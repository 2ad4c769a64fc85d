//! What can stop a transposition.
use vstd::prelude::*;

verus! {

/// The reasons for which a transposition is given up.
#[derive(Clone, Copy, Debug, PartialEq, Eq, Structural)]
pub enum TransposeError {
    /// No scale was asked for and none could be derived from the signal.
    NearestNoteNotFound,
    /// The signal is stored in an encoding that cannot be written back.
    UnsupportedCodec,
    /// The file for the transposed signal could not be created or written.
    OutputNotCreated,
}

impl TransposeError {
    /// The text of the message for this error.
    pub open spec fn text(self) -> Seq<char> {
        match self {
            TransposeError::NearestNoteNotFound => "could not find nearest note"@,
            TransposeError::UnsupportedCodec => "Unsupported codec"@,
            TransposeError::OutputNotCreated => "could not create file for transposition"@,
        }
    }

    /// The message shown to the user for this error.
    pub fn message(&self) -> (text: &'static str)
        ensures
            text@ == self.text(),
    {
        match self {
            TransposeError::NearestNoteNotFound => "could not find nearest note",
            TransposeError::UnsupportedCodec => "Unsupported codec",
            TransposeError::OutputNotCreated => "could not create file for transposition",
        }
    }
}

} // verus!
