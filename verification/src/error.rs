//! The ways in which decoding a snapshot can fail.

use vstd::prelude::*;

verus! {

/// Why a snapshot, or a part of one, could not be decoded. Every failure is
/// final: nothing is retried and no partial result is produced.
#[derive(Clone, Copy, Debug, PartialEq, Eq, Structural)]
pub enum DecodeError {
    /// The input ended in the middle of a value.
    UnexpectedEof,
    /// A continuation-bit integer stands for more than 64 bits hold.
    VarintOverflow,
    /// A compact amount stands for more than 64 bits hold.
    AmountOverflow,
    /// A compact-size integer was written in more bytes than it needs.
    NonMinimalCompactSize,
    /// The payload of a compressed script has the wrong size for its tag.
    BadPayloadLength,
    /// Data to be pushed by a script is too long for any push instruction.
    PushDataTooLong,
    /// A compressed public key is not a point on the curve.
    InvalidPublicKey,
    /// A group header declares no coins.
    EmptyGroup,
    /// The groups read do not add up to the declared number of coins.
    CountMismatch,
    /// The input does not start with the snapshot magic.
    BadMagic,
    /// The network magic names no known network.
    UnknownNetwork,
    /// A batch of rows is too large to be sorted.
    BatchTooLarge,
}

impl DecodeError {
    /// A short description of the failure, for a diagnostic.
    pub fn describe(&self) -> (text: &'static str)
        ensures
            text@ == self.description(),
    {
        match self {
            DecodeError::UnexpectedEof => "unexpected end of input",
            DecodeError::VarintOverflow => "variable-length integer exceeds 64 bits",
            DecodeError::AmountOverflow => "compact amount exceeds 64 bits",
            DecodeError::NonMinimalCompactSize => "non-minimal compact-size integer",
            DecodeError::BadPayloadLength => "compressed script payload of the wrong size",
            DecodeError::PushDataTooLong => "data too long for a script push",
            DecodeError::InvalidPublicKey => "compressed public key is not on the curve",
            DecodeError::EmptyGroup => "group header declares no coins",
            DecodeError::CountMismatch => "groups do not add up to the declared number of coins",
            DecodeError::BadMagic => "not a snapshot: bad magic",
            DecodeError::UnknownNetwork => "unknown network magic",
            DecodeError::BatchTooLarge => "batch too large to sort",
        }
    }

    /// The words in which each failure is described.
    pub open spec fn description(self) -> Seq<char> {
        match self {
            DecodeError::UnexpectedEof => "unexpected end of input"@,
            DecodeError::VarintOverflow => "variable-length integer exceeds 64 bits"@,
            DecodeError::AmountOverflow => "compact amount exceeds 64 bits"@,
            DecodeError::NonMinimalCompactSize => "non-minimal compact-size integer"@,
            DecodeError::BadPayloadLength => "compressed script payload of the wrong size"@,
            DecodeError::PushDataTooLong => "data too long for a script push"@,
            DecodeError::InvalidPublicKey => "compressed public key is not on the curve"@,
            DecodeError::EmptyGroup => "group header declares no coins"@,
            DecodeError::CountMismatch => "groups do not add up to the declared number of coins"@,
            DecodeError::BadMagic => "not a snapshot: bad magic"@,
            DecodeError::UnknownNetwork => "unknown network magic"@,
            DecodeError::BatchTooLarge => "batch too large to sort"@,
        }
    }
}

} // verus!
