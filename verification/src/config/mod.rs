//! What the user asks the transposer to do.
pub mod ptconfig;
