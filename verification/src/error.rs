//! The failures an operation can report.

use vstd::prelude::*;

verus! {

/// Why an operation was refused.  A refused operation changes nothing.
#[derive(Clone, Copy, Debug, PartialEq, Eq, Structural)]
pub enum ErrorCode {
    /// The proposal title has 64 characters or more.
    TitleTooLong,
    /// The proposal description has 512 characters or more.
    DescriptionTooLong,
    /// A time lies before the moment it is measured from.
    InvalidTimestamp,
    /// The pool has no shares to divide rewards among.
    ZeroShares,
    /// The caller is not the party the operation is reserved for.
    Unauthorized,
    /// The proposal is no longer open for votes.
    VotingClosed,
    /// The delegation's lock has not yet run out.
    StillLocked,
    /// The delegation was revoked before.
    AlreadyRevoked,
    /// The pool already pays rewards in this asset.
    AssetAlreadyAdded,
    /// The pool does not pay rewards in this asset.
    InvalidRewardAsset,
    /// The delegator holds less than the amount to lock.
    InsufficientBalance,
    /// The voter holds less than the policy's minimum balance.
    InsufficientVotingPower,
    /// The voter's deposit is younger than the policy's minimum lock.
    InsufficientLockTime,
    /// A result does not fit the integer that has to hold it.
    Overflow,
    /// The clock reads earlier than the last recorded update.
    ClockRegression,
}

impl ErrorCode {
    /// The text of [`ErrorCode::message`].
    pub open spec fn message_text(self) -> Seq<char> {
        match self {
            ErrorCode::TitleTooLong => "Title exceeds maximum length (64 characters)"@,
            ErrorCode::DescriptionTooLong => "Description exceeds maximum length (512 characters)"@,
            ErrorCode::InvalidTimestamp => "Timestamp lies before its reference time"@,
            ErrorCode::ZeroShares => "Reward pool has no shares"@,
            ErrorCode::Unauthorized => "Caller is not authorized"@,
            ErrorCode::VotingClosed => "Voting period has ended"@,
            ErrorCode::StillLocked => "Delegation is still locked"@,
            ErrorCode::AlreadyRevoked => "Delegation was already revoked"@,
            ErrorCode::AssetAlreadyAdded => "Reward asset was already added"@,
            ErrorCode::InvalidRewardAsset => "Reward asset is not registered"@,
            ErrorCode::InsufficientBalance => "Insufficient balance"@,
            ErrorCode::InsufficientVotingPower => "Insufficient voting power"@,
            ErrorCode::InsufficientLockTime => "Insufficient lock time"@,
            ErrorCode::Overflow => "Arithmetic overflow"@,
            ErrorCode::ClockRegression => "Clock reads earlier than the last update"@,
        }
    }

    /// A sentence for the end user.
    pub fn message(&self) -> (text: &'static str)
        ensures
            text@ == self.message_text(),
    {
        match self {
            ErrorCode::TitleTooLong => "Title exceeds maximum length (64 characters)",
            ErrorCode::DescriptionTooLong => "Description exceeds maximum length (512 characters)",
            ErrorCode::InvalidTimestamp => "Timestamp lies before its reference time",
            ErrorCode::ZeroShares => "Reward pool has no shares",
            ErrorCode::Unauthorized => "Caller is not authorized",
            ErrorCode::VotingClosed => "Voting period has ended",
            ErrorCode::StillLocked => "Delegation is still locked",
            ErrorCode::AlreadyRevoked => "Delegation was already revoked",
            ErrorCode::AssetAlreadyAdded => "Reward asset was already added",
            ErrorCode::InvalidRewardAsset => "Reward asset is not registered",
            ErrorCode::InsufficientBalance => "Insufficient balance",
            ErrorCode::InsufficientVotingPower => "Insufficient voting power",
            ErrorCode::InsufficientLockTime => "Insufficient lock time",
            ErrorCode::Overflow => "Arithmetic overflow",
            ErrorCode::ClockRegression => "Clock reads earlier than the last update",
        }
    }
}

} // verus!
