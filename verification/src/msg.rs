//! Operation payloads and the instructions the engine hands back.

use vstd::prelude::*;

use crate::model::{ChequeV, ClaimV, DenomV, TransferInstructionV};
use crate::state::{Config, Recipient};

verus! {

/// What a deployment starts from: the settlement asset, the dispute-window
/// length and the recipient-slot cap.  The owner is the instantiating
/// caller.
#[derive(Debug, PartialEq, Eq)]
pub struct InstantiateMsg {
    pub denom: crate::state::Denom,
    pub admin: Option<String>,
    pub auto_release_time: u64,
    pub max_recipient: u32,
}

/// One recipient claim inside an open-or-top-up batch.
#[derive(Debug, PartialEq, Eq)]
pub struct Channel {
    pub key: String,
    pub max_amount: u128,
    pub face_value: Option<u128>,
    pub approve_signers: Vec<String>,
}

impl View for Channel {
    type V = ClaimV;

    open spec fn view(&self) -> ClaimV {
        ClaimV {
            key: self.key@,
            max_amount: self.max_amount,
            face_value: self.face_value,
            approve_signers: self.approve_signers.deep_view(),
        }
    }
}

impl DeepView for Channel {
    type V = ClaimV;

    open spec fn deep_view(&self) -> ClaimV {
        self.view()
    }
}

/// One cheque presented for cashing: an off-chain authorization carrying a
/// strictly increasing sequence number.
#[derive(Debug, PartialEq, Eq)]
pub struct PaymentCheque {
    pub sender_key: String,
    pub sender_commitment: Vec<u8>,
    pub recipient_key: String,
    pub recipient_commitment: Vec<u8>,
    pub value: Option<u128>,
    pub nonce: u64,
}

impl View for PaymentCheque {
    type V = ChequeV;

    open spec fn view(&self) -> ChequeV {
        ChequeV {
            sender_key: self.sender_key@,
            sender_commitment: self.sender_commitment@,
            recipient_key: self.recipient_key@,
            recipient_commitment: self.recipient_commitment@,
            value: self.value,
            nonce: self.nonce,
        }
    }
}

impl DeepView for PaymentCheque {
    type V = ChequeV;

    open spec fn deep_view(&self) -> ChequeV {
        self.view()
    }
}

/// The operations the engine dispatches on.  Close and cashing payloads
/// carry, beside each commitment, the verifier's verdict on it: commitment
/// verification is an external collaborator, and the engine takes its
/// outcomes as inputs.
#[derive(Debug, PartialEq, Eq)]
#[allow(inconsistent_fields)]
pub enum ExecuteMsg {
    AddPaymentChan { chan_key: String, channels: Vec<Channel>, operator: Option<String> },
    ClosePaymentChan { chan_key: String, channels: Vec<(String, bool)> },
    AddSigner { chan_key: String, recipient_key: String, signers: Vec<String> },
    Cashing { recipient_key: String, cheques: Vec<PaymentCheque>, verdicts: Vec<bool> },
    UpdateConfig {
        owner: Option<String>,
        auto_release_time: Option<u64>,
        max_recipient: Option<u32>,
    },
}

/// Read-only queries.
#[derive(Debug, PartialEq, Eq)]
pub enum QueryMsg {
    PaymentChan {
        sender_pubkey_hash: String,
        recipient_pubkey_hash: Option<String>,
        page: Option<u32>,
        size: Option<u32>,
    },
    Config {},
}

/// What a query answers with.
#[derive(Debug, PartialEq, Eq)]
pub enum QueryAnswer {
    PaymentChan(Option<Vec<Recipient>>),
    Config(Config),
}

/// Payload of a migration call; nothing is carried today.
#[derive(Debug, PartialEq, Eq)]
pub struct MigrateMsg {}

/// A settlement instruction: a transfer for the external execution
/// collaborator to carry out.  The engine only constructs these.
#[derive(Debug, PartialEq, Eq)]
pub enum TransferInstruction {
    /// A direct balance transfer of the native denomination.
    Native { denom: String, to_address: String, amount: u128 },
    /// An invocation of the token contract's transfer operation.
    Cw20 { contract_addr: String, recipient: String, amount: u128 },
}

impl View for TransferInstruction {
    type V = TransferInstructionV;

    open spec fn view(&self) -> TransferInstructionV {
        match self {
            TransferInstruction::Native { denom, to_address, amount } => {
                TransferInstructionV::Native {
                    denom: denom@,
                    to_address: to_address@,
                    amount: *amount,
                }
            },
            TransferInstruction::Cw20 { contract_addr, recipient, amount } => {
                TransferInstructionV::Cw20 {
                    contract_addr: contract_addr@,
                    recipient: recipient@,
                    amount: *amount,
                }
            },
        }
    }
}

impl DeepView for TransferInstruction {
    type V = TransferInstructionV;

    open spec fn deep_view(&self) -> TransferInstructionV {
        self.view()
    }
}

} // verus!
