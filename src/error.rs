use vstd::prelude::*;

verus! {

/// Why a domain name could not be put into wire format.
#[derive(Debug, Clone, Copy, PartialEq, Eq, Structural)]
pub enum EncodeDNSNameError {
    /// The name holds a character outside the ASCII range.
    NonASCIIName,
    /// The name is longer than the protocol allows (kept for a length check
    /// that the encoder does not make yet).
    NameTooLong,
}

impl EncodeDNSNameError {
    /// A sentence that describes the error to a person.
    pub fn message(&self) -> (r: &'static str)
        ensures
            *self == EncodeDNSNameError::NonASCIIName ==> r@
                == "Domain name contains non-ascii characters"@,
            *self == EncodeDNSNameError::NameTooLong ==> r@ == "Domain name is too long"@,
    {
        match *self {
            EncodeDNSNameError::NonASCIIName => "Domain name contains non-ascii characters",
            EncodeDNSNameError::NameTooLong => "Domain name is too long",
        }
    }
}

/// Any failure of a DNS operation of this library.
#[derive(Debug, Clone, Copy, PartialEq, Eq, Structural)]
pub enum DNSError {
    /// The domain name could not be encoded.
    EncodeDNSNameError(EncodeDNSNameError),
}

} // verus!
