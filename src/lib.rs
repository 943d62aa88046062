//! A codec for the Distinguished Encoding Rules (DER): a reader that accepts
//! only the canonical encoding of tag/length/value elements, and a writer
//! that produces it.
use vstd::prelude::*;

pub mod cursor;
pub mod der;
pub mod length;
pub mod writer;

verus! {

/// The ways in which reading or writing DER can fail.
#[derive(Debug, PartialEq, Eq, Structural, Clone, Copy)]
pub enum Error {
    BadBooleanValue,
    LeadingZero,
    LessThanMinimum,
    LongLengthNotSupported,
    HighTagNumberForm,
    Io,
    NegativeValue,
    NonCanonical,
    NonZeroUnusedBits,
    Read,
    UnexpectedEnd,
    UnknownTag,
    WrongTag,
    WrongValue,
}

} // verus!
