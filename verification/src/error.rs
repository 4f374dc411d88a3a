use vstd::prelude::*;

verus! {

/// Errors returned by the settlement engine.  Every operation either commits
/// in full or returns one of these with the ledger left untouched.
#[derive(Debug, PartialEq, Eq)]
pub enum ContractError {
    /// The asset kind used by the caller does not match the configured one.
    UnsupportDenom,
    /// The deposit received is smaller than the escrow the claims ask for.
    InsufficientFund,
    /// An insertion would push a channel past the recipient-slot cap.
    ExceedRecipientNum,
    /// The caller is not the operator stored for the channel.
    NotOperator,
    /// The caller is not the configured owner; carries both identities.
    NotOwner { sender: String, owner: String },
    /// No channel is stored under the given key.
    UnknownChannel,
    /// The channel has no recipient slot under the given key.
    UnknownRecipient,
    /// The cheque's sequence number does not advance past the last one redeemed.
    StaleOrReplayedSequence,
    /// A commitment accompanying a cheque was rejected by the verifier.
    ChecksVerifyFailed,
    /// A checked add, subtract or multiply left the fixed-width range.
    ArithmeticOverflow,
}

/// Mathematical image of `ContractError`: identities as character sequences.
pub enum ErrorV {
    UnsupportDenom,
    InsufficientFund,
    ExceedRecipientNum,
    NotOperator,
    NotOwner { sender: Seq<char>, owner: Seq<char> },
    UnknownChannel,
    UnknownRecipient,
    StaleOrReplayedSequence,
    ChecksVerifyFailed,
    ArithmeticOverflow,
}

impl View for ContractError {
    type V = ErrorV;

    open spec fn view(&self) -> ErrorV {
        match self {
            ContractError::UnsupportDenom => ErrorV::UnsupportDenom,
            ContractError::InsufficientFund => ErrorV::InsufficientFund,
            ContractError::ExceedRecipientNum => ErrorV::ExceedRecipientNum,
            ContractError::NotOperator => ErrorV::NotOperator,
            ContractError::NotOwner { sender, owner } => ErrorV::NotOwner {
                sender: sender@,
                owner: owner@,
            },
            ContractError::UnknownChannel => ErrorV::UnknownChannel,
            ContractError::UnknownRecipient => ErrorV::UnknownRecipient,
            ContractError::StaleOrReplayedSequence => ErrorV::StaleOrReplayedSequence,
            ContractError::ChecksVerifyFailed => ErrorV::ChecksVerifyFailed,
            ContractError::ArithmeticOverflow => ErrorV::ArithmeticOverflow,
        }
    }
}

} // verus!
