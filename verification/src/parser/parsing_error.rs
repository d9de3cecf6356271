use vstd::prelude::*;

verus! {

/// Why a domain name could not be decoded or encoded.
#[derive(Clone, Copy, Debug, PartialEq, Eq, Structural)]
pub enum NameFault {
    /// More compression pointers were followed than a well-formed name needs;
    /// the name may contain a pointer cycle.
    TooManyJumps,
    /// A label is longer than the 63 bytes that a length byte can announce.
    LabelTooLong,
}

/// The failures of the codec.
#[derive(Clone, Copy, Debug, PartialEq, Eq, Structural)]
pub enum ParseError {
    /// An operation would have touched a byte outside the datagram buffer.
    EndOfBuffer,
    /// A domain name is not well formed.
    MalformedName(NameFault),
}

impl ParseError {
    /// A short description of the failure, for logs and messages.
    pub fn message(&self) -> (text: &'static str)
        ensures
            text@ == match *self {
                ParseError::EndOfBuffer => "End of buffer!"@,
                ParseError::MalformedName(NameFault::TooManyJumps) => "Too many jumps performed while parsing DNS packet - could be a malicious packet containing a cycle."@,
                ParseError::MalformedName(NameFault::LabelTooLong) => "Individual domain name segments cannot exceed 63 chars long"@,
            },
    {
        match self {
            ParseError::EndOfBuffer => "End of buffer!",
            ParseError::MalformedName(NameFault::TooManyJumps) => "Too many jumps performed while parsing DNS packet - could be a malicious packet containing a cycle.",
            ParseError::MalformedName(NameFault::LabelTooLong) => "Individual domain name segments cannot exceed 63 chars long",
        }
    }
}

} // verus!
