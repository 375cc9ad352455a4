//! Result kinds shared by every LongFi operation.

use vstd::prelude::*;

verus! {

/// The kinds of outcome a LongFi operation can report.
#[derive(Debug, Clone, Copy, PartialEq, Eq, Structural)]
pub enum LfcRes {
    /// No error.
    NoError,
    /// The datagram's organization or device identifier is not the configured one.
    ErrAddr,
    /// The datagram's fingerprint is not the locally computed one.
    ErrFingerprint,
    /// A fault that fits no other kind; also a frame of a known kind other
    /// than monolithic.
    ErrException,
    /// A buffer is too small for what has to be written to or read from it.
    ErrNomem,
    /// The frame's kind tag is not a known one.
    InvalidType,
    /// The frame's flag bits form a combination that is not allowed.
    InvalidFlags,
}

/// An error of the codec: the kind of failure, never [`LfcRes::NoError`] when
/// returned by this library.
#[derive(Debug, Clone, Copy, PartialEq, Eq, Structural)]
pub struct LfcError(pub LfcRes);

impl LfcRes {
    /// The fixed human-readable text of each kind.
    pub open spec fn description_spec(self) -> Seq<char> {
        match self {
            LfcRes::NoError => "No error"@,
            LfcRes::ErrAddr => "Received datagram does not match configured OUI or DID"@,
            LfcRes::ErrFingerprint =>
                "Received datagram's fingerprint does not match locally computed fingerprint"@,
            LfcRes::ErrException => "Uknown error"@,
            LfcRes::ErrNomem => "Provided buffer is too small for request"@,
            LfcRes::InvalidType => "Invalid datagram type"@,
            LfcRes::InvalidFlags => "Invalid datagram flags"@,
        }
    }

    /// Returns the text that describes this kind.
    pub fn description(self) -> (text: &'static str)
        ensures
            text@ == self.description_spec(),
    {
        match self {
            LfcRes::NoError => "No error",
            LfcRes::ErrAddr => "Received datagram does not match configured OUI or DID",
            LfcRes::ErrFingerprint =>
                "Received datagram's fingerprint does not match locally computed fingerprint",
            LfcRes::ErrException => "Uknown error",
            LfcRes::ErrNomem => "Provided buffer is too small for request",
            LfcRes::InvalidType => "Invalid datagram type",
            LfcRes::InvalidFlags => "Invalid datagram flags",
        }
    }
}

impl LfcError {
    /// Returns the text that describes this error, one fixed text per kind.
    pub fn description(&self) -> (text: &'static str)
        ensures
            text@ == self.0.description_spec(),
    {
        self.0.description()
    }
}

} // verus!
