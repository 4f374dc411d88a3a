use micro_payment::error::ContractError;
use micro_payment::handler::{
    add_signer, build_payment_chan, build_transfer_msg, cashing, close_payment, config,
    handle_cw20_open, payment_chan, update_config,
};
use micro_payment::msg::{Channel, PaymentCheque, TransferInstruction};
use micro_payment::state::{Config, Denom, PaymentLedger, Recipient};

fn native_config(auto_release_time: u64, max_recipient: u32) -> Config {
    Config {
        denom: Denom::Native("ugtb".to_string()),
        auto_release_time,
        owner: "admin".to_string(),
        max_recipient,
    }
}

fn one_claim(key: &str, face_value: u128, max_amount: u128) -> Vec<Channel> {
    vec![Channel {
        key: key.to_string(),
        max_amount,
        face_value: Some(face_value),
        approve_signers: vec![],
    }]
}

fn one_cheque(sender_key: &str, recipient_key: &str, nonce: u64) -> Vec<PaymentCheque> {
    vec![PaymentCheque {
        sender_key: sender_key.to_string(),
        sender_commitment: vec![],
        recipient_key: recipient_key.to_string(),
        recipient_commitment: vec![],
        value: None,
        nonce,
    }]
}

fn slot(ledger: &PaymentLedger, chan_key: &str, recipient_key: &str) -> Option<Recipient> {
    let listing = payment_chan(
        ledger,
        chan_key.to_string(),
        Some(recipient_key.to_string()),
        None,
        None,
    )
    .unwrap()
    .unwrap();
    listing.into_iter().next()
}

/// The full dispute scenario: cash, replay rejection, unilateral close,
/// window elapse, final refund of the remainder.
#[test]
fn scenario_dispute_close() {
    let cfg = native_config(100, 1024);
    let mut ledger = PaymentLedger::new();
    build_payment_chan(
        &mut ledger,
        &cfg,
        10000,
        "chan_s".to_string(),
        one_claim("r1", 100, 10000),
        "op".to_string(),
    )
    .unwrap();

    // Cash with sequence 3 pays 300 and records sequence 3.
    let msgs = cashing(
        &mut ledger,
        &cfg,
        "r1_account".to_string(),
        "r1".to_string(),
        one_cheque("chan_s", "r1", 3),
        vec![true],
    )
    .unwrap();
    assert_eq!(
        msgs[0],
        TransferInstruction::Native {
            denom: "ugtb".to_string(),
            to_address: "r1_account".to_string(),
            amount: 300,
        }
    );
    assert_eq!(slot(&ledger, "chan_s", "r1").unwrap().withdrawl_seq, Some(3));

    // Cashing sequence 3 again is a replay.
    let res = cashing(
        &mut ledger,
        &cfg,
        "r1_account".to_string(),
        "r1".to_string(),
        one_cheque("chan_s", "r1", 3),
        vec![true],
    );
    assert_eq!(res.unwrap_err(), ContractError::StaleOrReplayedSequence);

    // A unilateral close only opens the dispute window: no refund yet.
    let now: u64 = 5000;
    let msgs = close_payment(
        &mut ledger,
        &cfg,
        "op".to_string(),
        now,
        "chan_s".to_string(),
        vec![("r1".to_string(), false)],
    )
    .unwrap();
    assert_eq!(msgs.len(), 0);
    assert_eq!(slot(&ledger, "chan_s", "r1").unwrap().auto_release, Some(now + 100));

    // Before the window elapses nothing changes.
    let msgs = close_payment(
        &mut ledger,
        &cfg,
        "op".to_string(),
        now + 99,
        "chan_s".to_string(),
        vec![("r1".to_string(), false)],
    )
    .unwrap();
    assert_eq!(msgs.len(), 0);
    assert_eq!(slot(&ledger, "chan_s", "r1").unwrap().auto_release, Some(now + 100));

    // Once it has elapsed, the remainder 10000 - 300 = 9700 comes back.
    let msgs = close_payment(
        &mut ledger,
        &cfg,
        "op".to_string(),
        now + 100,
        "chan_s".to_string(),
        vec![("r1".to_string(), false)],
    )
    .unwrap();
    assert_eq!(
        msgs[0],
        TransferInstruction::Native {
            denom: "ugtb".to_string(),
            to_address: "op".to_string(),
            amount: 9700,
        }
    );
    assert!(slot(&ledger, "chan_s", "r1").is_none());
}

/// With `max_recipient = 1` a second distinct recipient is rejected and
/// the first one's state is untouched.
#[test]
fn recipient_cap_rolls_back() {
    let cfg = native_config(100, 1);
    let mut ledger = PaymentLedger::new();
    build_payment_chan(
        &mut ledger,
        &cfg,
        10000,
        "chan_s".to_string(),
        one_claim("r1", 100, 10000),
        "op".to_string(),
    )
    .unwrap();

    let res = build_payment_chan(
        &mut ledger,
        &cfg,
        5000,
        "chan_s".to_string(),
        one_claim("r2", 50, 5000),
        "op".to_string(),
    );
    assert_eq!(res.unwrap_err(), ContractError::ExceedRecipientNum);

    let listing = payment_chan(&ledger, "chan_s".to_string(), None, None, None)
        .unwrap()
        .unwrap();
    assert_eq!(listing.len(), 1);
    assert_eq!(listing[0].max_amount, 10000);

    // The same holds inside one batch: the whole call rolls back.
    let mut batch = one_claim("r1", 100, 1000);
    batch.append(&mut one_claim("r3", 10, 1000));
    let res = build_payment_chan(
        &mut ledger,
        &cfg,
        2000,
        "chan_s".to_string(),
        batch,
        "op".to_string(),
    );
    assert_eq!(res.unwrap_err(), ContractError::ExceedRecipientNum);
    assert_eq!(slot(&ledger, "chan_s", "r1").unwrap().max_amount, 10000);
}

/// A deposit short of the batch total is rejected.
#[test]
fn deposit_must_cover_batch() {
    let cfg = native_config(100, 1024);
    let mut ledger = PaymentLedger::new();
    let res = build_payment_chan(
        &mut ledger,
        &cfg,
        9999,
        "chan_s".to_string(),
        one_claim("r1", 100, 10000),
        "op".to_string(),
    );
    assert_eq!(res.unwrap_err(), ContractError::InsufficientFund);
    assert!(payment_chan(&ledger, "chan_s".to_string(), None, None, None).is_err());
}

/// Topping up an existing recipient raises its ceiling by exactly the
/// claimed amount and leaves its other fields alone.
#[test]
fn topup_accumulates_ceiling() {
    let cfg = native_config(100, 1024);
    let mut ledger = PaymentLedger::new();
    build_payment_chan(
        &mut ledger,
        &cfg,
        10000,
        "chan_s".to_string(),
        one_claim("r1", 100, 10000),
        "op".to_string(),
    )
    .unwrap();
    build_payment_chan(
        &mut ledger,
        &cfg,
        5000,
        "chan_s".to_string(),
        one_claim("r1", 999, 5000),
        "op".to_string(),
    )
    .unwrap();
    let r = slot(&ledger, "chan_s", "r1").unwrap();
    assert_eq!(r.max_amount, 15000);
    // The top-up does not rewrite the stored face value.
    assert_eq!(r.face_value, Some(100));
}

/// An existing channel only accepts its stored operator.
#[test]
fn operator_mismatch_rejected() {
    let cfg = native_config(100, 1024);
    let mut ledger = PaymentLedger::new();
    build_payment_chan(
        &mut ledger,
        &cfg,
        10000,
        "chan_s".to_string(),
        one_claim("r1", 100, 10000),
        "op".to_string(),
    )
    .unwrap();
    let res = build_payment_chan(
        &mut ledger,
        &cfg,
        1000,
        "chan_s".to_string(),
        one_claim("r1", 100, 1000),
        "other_op".to_string(),
    );
    assert_eq!(res.unwrap_err(), ContractError::NotOperator);
}

/// A cheque that would redeem past the ceiling fails the checked
/// arithmetic and mutates nothing.
#[test]
fn overwithdrawal_rejected() {
    let cfg = native_config(100, 1024);
    let mut ledger = PaymentLedger::new();
    build_payment_chan(
        &mut ledger,
        &cfg,
        10000,
        "chan_s".to_string(),
        one_claim("r1", 100, 10000),
        "op".to_string(),
    )
    .unwrap();
    // 101 * 100 = 10100 > 10000.
    let res = cashing(
        &mut ledger,
        &cfg,
        "r1_account".to_string(),
        "r1".to_string(),
        one_cheque("chan_s", "r1", 101),
        vec![true],
    );
    assert_eq!(res.unwrap_err(), ContractError::ArithmeticOverflow);
    assert_eq!(slot(&ledger, "chan_s", "r1").unwrap().withdrawl_seq, None);

    // 100 * 100 = 10000 is exactly the ceiling and passes.
    let msgs = cashing(
        &mut ledger,
        &cfg,
        "r1_account".to_string(),
        "r1".to_string(),
        one_cheque("chan_s", "r1", 100),
        vec![true],
    )
    .unwrap();
    assert_eq!(
        msgs[0],
        TransferInstruction::Native {
            denom: "ugtb".to_string(),
            to_address: "r1_account".to_string(),
            amount: 10000,
        }
    );
}

/// A rejected commitment fails the whole batch before any state change.
#[test]
fn rejected_commitment_fails_batch() {
    let cfg = native_config(100, 1024);
    let mut ledger = PaymentLedger::new();
    build_payment_chan(
        &mut ledger,
        &cfg,
        10000,
        "chan_s".to_string(),
        one_claim("r1", 100, 10000),
        "op".to_string(),
    )
    .unwrap();
    let mut cheques = one_cheque("chan_s", "r1", 1);
    cheques.append(&mut one_cheque("chan_s", "r1", 2));
    let res = cashing(
        &mut ledger,
        &cfg,
        "r1_account".to_string(),
        "r1".to_string(),
        cheques,
        vec![true, false],
    );
    assert_eq!(res.unwrap_err(), ContractError::ChecksVerifyFailed);
    assert_eq!(slot(&ledger, "chan_s", "r1").unwrap().withdrawl_seq, None);
}

/// A failing cheque in the middle of a batch rolls the whole batch back.
#[test]
fn failing_cheque_rolls_back_batch() {
    let cfg = native_config(100, 1024);
    let mut ledger = PaymentLedger::new();
    build_payment_chan(
        &mut ledger,
        &cfg,
        10000,
        "chan_s".to_string(),
        one_claim("r1", 100, 10000),
        "op".to_string(),
    )
    .unwrap();
    let mut cheques = one_cheque("chan_s", "r1", 5);
    // The second cheque does not advance the sequence past the first.
    cheques.append(&mut one_cheque("chan_s", "r1", 5));
    let res = cashing(
        &mut ledger,
        &cfg,
        "r1_account".to_string(),
        "r1".to_string(),
        cheques,
        vec![true, true],
    );
    assert_eq!(res.unwrap_err(), ContractError::StaleOrReplayedSequence);
    assert_eq!(slot(&ledger, "chan_s", "r1").unwrap().withdrawl_seq, None);
}

/// Cashing against an unknown channel or recipient names the missing key.
#[test]
fn unknown_keys_rejected() {
    let cfg = native_config(100, 1024);
    let mut ledger = PaymentLedger::new();
    let res = cashing(
        &mut ledger,
        &cfg,
        "acct".to_string(),
        "r1".to_string(),
        one_cheque("nobody", "r1", 1),
        vec![true],
    );
    assert_eq!(res.unwrap_err(), ContractError::UnknownChannel);

    build_payment_chan(
        &mut ledger,
        &cfg,
        10000,
        "chan_s".to_string(),
        one_claim("r1", 100, 10000),
        "op".to_string(),
    )
    .unwrap();
    let res = cashing(
        &mut ledger,
        &cfg,
        "acct".to_string(),
        "r9".to_string(),
        one_cheque("chan_s", "r9", 1),
        vec![true],
    );
    assert_eq!(res.unwrap_err(), ContractError::UnknownRecipient);

    let res = add_signer(
        &mut ledger,
        "op".to_string(),
        "chan_s".to_string(),
        "r9".to_string(),
        vec!["s1".to_string()],
    );
    assert_eq!(res.unwrap_err(), ContractError::UnknownRecipient);
}

/// Closing an already-settled slot again is a no-op: no error, no refund.
#[test]
fn close_settled_slot_is_noop() {
    let cfg = native_config(100, 1024);
    let mut ledger = PaymentLedger::new();
    build_payment_chan(
        &mut ledger,
        &cfg,
        10000,
        "chan_s".to_string(),
        one_claim("r1", 100, 10000),
        "op".to_string(),
    )
    .unwrap();
    let msgs = close_payment(
        &mut ledger,
        &cfg,
        "op".to_string(),
        1000,
        "chan_s".to_string(),
        vec![("r1".to_string(), true)],
    )
    .unwrap();
    assert_eq!(msgs.len(), 1);
    let before = payment_chan(&ledger, "chan_s".to_string(), None, None, None)
        .unwrap()
        .unwrap();
    let msgs = close_payment(
        &mut ledger,
        &cfg,
        "op".to_string(),
        1000,
        "chan_s".to_string(),
        vec![("r1".to_string(), true)],
    )
    .unwrap();
    assert_eq!(msgs.len(), 0);
    let after = payment_chan(&ledger, "chan_s".to_string(), None, None, None)
        .unwrap()
        .unwrap();
    assert_eq!(before, after);
}

/// Only the stored operator may close or add signers.
#[test]
fn close_requires_operator() {
    let cfg = native_config(100, 1024);
    let mut ledger = PaymentLedger::new();
    build_payment_chan(
        &mut ledger,
        &cfg,
        10000,
        "chan_s".to_string(),
        one_claim("r1", 100, 10000),
        "op".to_string(),
    )
    .unwrap();
    let res = close_payment(
        &mut ledger,
        &cfg,
        "intruder".to_string(),
        1000,
        "chan_s".to_string(),
        vec![("r1".to_string(), true)],
    );
    assert_eq!(res.unwrap_err(), ContractError::NotOperator);
    let res = add_signer(
        &mut ledger,
        "intruder".to_string(),
        "chan_s".to_string(),
        "r1".to_string(),
        vec!["s1".to_string()],
    );
    assert_eq!(res.unwrap_err(), ContractError::NotOperator);
}

/// Appended signers keep their order, duplicates included.
#[test]
fn add_signer_appends() {
    let cfg = native_config(100, 1024);
    let mut ledger = PaymentLedger::new();
    build_payment_chan(
        &mut ledger,
        &cfg,
        10000,
        "chan_s".to_string(),
        vec![Channel {
            key: "r1".to_string(),
            max_amount: 10000,
            face_value: Some(100),
            approve_signers: vec!["s1".to_string()],
        }],
        "op".to_string(),
    )
    .unwrap();
    add_signer(
        &mut ledger,
        "op".to_string(),
        "chan_s".to_string(),
        "r1".to_string(),
        vec!["s2".to_string(), "s1".to_string()],
    )
    .unwrap();
    let r = slot(&ledger, "chan_s", "r1").unwrap();
    assert_eq!(
        r.approve_signers,
        vec!["s1".to_string(), "s2".to_string(), "s1".to_string()]
    );
}

/// The listing pages strictly through `[start, start + size)`.
#[test]
fn listing_pages_strictly() {
    let cfg = native_config(100, 1024);
    let mut ledger = PaymentLedger::new();
    let claims = vec![
        Channel {
            key: "r1".to_string(),
            max_amount: 100,
            face_value: Some(1),
            approve_signers: vec![],
        },
        Channel {
            key: "r2".to_string(),
            max_amount: 200,
            face_value: Some(1),
            approve_signers: vec![],
        },
        Channel {
            key: "r3".to_string(),
            max_amount: 300,
            face_value: Some(1),
            approve_signers: vec![],
        },
    ];
    build_payment_chan(
        &mut ledger,
        &cfg,
        600,
        "chan_s".to_string(),
        claims,
        "op".to_string(),
    )
    .unwrap();

    let page0 = payment_chan(&ledger, "chan_s".to_string(), None, Some(0), Some(2))
        .unwrap()
        .unwrap();
    assert_eq!(page0.len(), 2);
    assert_eq!(page0[0].max_amount, 100);
    assert_eq!(page0[1].max_amount, 200);

    let page1 = payment_chan(&ledger, "chan_s".to_string(), None, Some(1), Some(2))
        .unwrap()
        .unwrap();
    assert_eq!(page1.len(), 1);
    assert_eq!(page1[0].max_amount, 300);

    let page2 = payment_chan(&ledger, "chan_s".to_string(), None, Some(2), Some(2))
        .unwrap()
        .unwrap();
    assert_eq!(page2.len(), 0);

    // The default page size lists up to ten slots from the start.
    let all = payment_chan(&ledger, "chan_s".to_string(), None, None, None)
        .unwrap()
        .unwrap();
    assert_eq!(all.len(), 3);
}

/// The settlement emitter builds the native instruction for a native
/// deployment.
#[test]
fn native_transfer_instruction() {
    let cfg = native_config(100, 1024);
    let msgs = build_transfer_msg(&cfg, "dest".to_string(), 42);
    assert_eq!(msgs.len(), 1);
    assert_eq!(
        msgs[0],
        TransferInstruction::Native {
            denom: "ugtb".to_string(),
            to_address: "dest".to_string(),
            amount: 42,
        }
    );
}

/// A cw20 deposit is refused by a natively configured deployment, and by
/// a cw20 deployment when it arrives from the wrong token contract.
#[test]
fn cw20_source_checked() {
    let cfg = native_config(100, 1024);
    let mut ledger = PaymentLedger::new();
    let res = handle_cw20_open(
        &mut ledger,
        &cfg,
        &"some_token".to_string(),
        10000,
        "chan_s".to_string(),
        one_claim("r1", 100, 10000),
        "op".to_string(),
    );
    assert_eq!(res.unwrap_err(), ContractError::UnsupportDenom);

    let cfg = Config {
        denom: Denom::Cw20("right_token".to_string()),
        auto_release_time: 100,
        owner: "admin".to_string(),
        max_recipient: 1024,
    };
    let res = handle_cw20_open(
        &mut ledger,
        &cfg,
        &"wrong_token".to_string(),
        10000,
        "chan_s".to_string(),
        one_claim("r1", 100, 10000),
        "op".to_string(),
    );
    assert_eq!(res.unwrap_err(), ContractError::UnsupportDenom);
}

/// The owner gate carries both identities in its rejection.
#[test]
fn not_owner_carries_identities() {
    let mut cfg = native_config(100, 1024);
    let res = update_config(&mut cfg, "mallory".to_string(), Some(5), None, None);
    assert_eq!(
        res.unwrap_err(),
        ContractError::NotOwner {
            sender: "mallory".to_string(),
            owner: "admin".to_string(),
        }
    );
    assert_eq!(cfg.auto_release_time, 100);
}

/// `Recipient::new` starts a slot with nothing redeemed; `remain` is the
/// ceiling minus the redeemed value.
#[test]
fn recipient_new_and_remain() {
    let r = Recipient::new(vec!["s1".to_string()], 10000, 100);
    assert_eq!(r.max_amount, 10000);
    assert_eq!(r.withdrawl_seq, None);
    assert_eq!(r.face_value, Some(100));
    assert_eq!(r.auto_release, None);
    assert_eq!(r.remain(), 10000);

    let r = Recipient {
        max_amount: 10000,
        withdrawl_seq: Some(3),
        face_value: Some(100),
        auto_release: None,
        approve_signers: vec![],
    };
    assert_eq!(r.remain(), 9700);
}

/// A query for one recipient answers with exactly that slot.
#[test]
fn single_slot_query() {
    let cfg = native_config(100, 1024);
    let mut ledger = PaymentLedger::new();
    build_payment_chan(
        &mut ledger,
        &cfg,
        10000,
        "chan_s".to_string(),
        one_claim("r1", 100, 10000),
        "op".to_string(),
    )
    .unwrap();
    let r = slot(&ledger, "chan_s", "r1").unwrap();
    assert_eq!(r.max_amount, 10000);
    assert!(slot(&ledger, "chan_s", "r9").is_none());
    let cfg_copy = config(&cfg);
    assert_eq!(cfg_copy, cfg);
}

/// A batch whose own total overflows the amount type is rejected whole.
#[test]
fn batch_total_overflow_rejected() {
    let cfg = native_config(100, 1024);
    let mut ledger = PaymentLedger::new();
    let claims = vec![
        Channel {
            key: "r1".to_string(),
            max_amount: u128::MAX,
            face_value: Some(1),
            approve_signers: vec![],
        },
        Channel {
            key: "r2".to_string(),
            max_amount: 1,
            face_value: Some(1),
            approve_signers: vec![],
        },
    ];
    let res = build_payment_chan(
        &mut ledger,
        &cfg,
        u128::MAX,
        "chan_s".to_string(),
        claims,
        "op".to_string(),
    );
    assert_eq!(res.unwrap_err(), ContractError::ArithmeticOverflow);
}
