use vstd::prelude::*;

verus! {

/// Failures reported by the operations of this crate.
#[derive(Clone, Copy, Debug, PartialEq, Eq, Structural)]
#[non_exhaustive]
pub enum Error {
    InvalidPrivateKey,
    MessageTooLong,
    Verification,
    InvalidInverse,
    InvalidRange,
    InvalidData,
    InvalidOID,
    PrivateKeyMalformed,
    PublicKeyMalformed,
    GenerationFailed,
}

/// The human-readable text of each error.
pub open spec fn error_text(e: Error) -> Seq<char> {
    match e {
        Error::InvalidPrivateKey => "invalid PrivateKey"@,
        Error::MessageTooLong => "message too long"@,
        Error::Verification => "verification error"@,
        Error::InvalidInverse => "failed ot find inverse"@,
        Error::InvalidRange => "integer not in range"@,
        Error::InvalidData => "invalid data"@,
        Error::InvalidOID => "invalid OID"@,
        Error::PrivateKeyMalformed => "private key is malformed"@,
        Error::PublicKeyMalformed => "public key is malformed"@,
        Error::GenerationFailed => "parameter generation failed"@,
    }
}

impl Error {
    /// The message that describes this error.
    pub fn message(&self) -> (r: &'static str)
        ensures
            r@ == error_text(*self),
    {
        match self {
            Error::InvalidPrivateKey => {
                proof { reveal_strlit("invalid PrivateKey"); }
                "invalid PrivateKey"
            },
            Error::MessageTooLong => {
                proof { reveal_strlit("message too long"); }
                "message too long"
            },
            Error::Verification => {
                proof { reveal_strlit("verification error"); }
                "verification error"
            },
            Error::InvalidInverse => {
                proof { reveal_strlit("failed ot find inverse"); }
                "failed ot find inverse"
            },
            Error::InvalidRange => {
                proof { reveal_strlit("integer not in range"); }
                "integer not in range"
            },
            Error::InvalidData => {
                proof { reveal_strlit("invalid data"); }
                "invalid data"
            },
            Error::InvalidOID => {
                proof { reveal_strlit("invalid OID"); }
                "invalid OID"
            },
            Error::PrivateKeyMalformed => {
                proof { reveal_strlit("private key is malformed"); }
                "private key is malformed"
            },
            Error::PublicKeyMalformed => {
                proof { reveal_strlit("public key is malformed"); }
                "public key is malformed"
            },
            Error::GenerationFailed => {
                proof { reveal_strlit("parameter generation failed"); }
                "parameter generation failed"
            },
        }
    }
}

} // verus!
