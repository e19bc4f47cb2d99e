use vstd::prelude::*;

verus! {

/// The failures that diffing and patching can report.
#[derive(Clone, Copy, Debug, PartialEq, Eq, Structural)]
pub enum Error {
    /// A configuration value or input lies outside its declared range.
    InvalidArgument,
    /// A patch is malformed: bad magic, sizes that overflow the patch
    /// length, or a section that does not decompress.
    InvalidData,
    /// A control record was cut short, or the delta or extra stream ran
    /// out before the control records were satisfied.
    UnexpectedEof,
    /// A seek moved the source cursor out of its addressable range.
    SourceIo,
    /// A compressed section grew past what the patch header can record.
    TooLarge,
}

impl Error {
    /// A short description, for callers that print failures.
    pub fn message(&self) -> (r: &'static str)
    {
        match self {
            Error::InvalidArgument => "invalid argument",
            Error::InvalidData => "invalid patch data",
            Error::UnexpectedEof => "unexpected end of stream",
            Error::SourceIo => "source cursor out of range",
            Error::TooLarge => "compressed section too large",
        }
    }
}

} // verus!
