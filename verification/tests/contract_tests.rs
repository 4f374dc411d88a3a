use micro_payment::handler::{
    cashing, close_payment, handle_cw20_open, init_config, payment_chan, query, update_config,
    verify_commitment, CommitmentType,
};
use micro_payment::msg::{
    Channel, InstantiateMsg, PaymentCheque, QueryAnswer, QueryMsg, TransferInstruction,
};
use micro_payment::state::{Denom, PaymentLedger};

fn cheque(sender_key: &str, recipient_key: &str, nonce: u64) -> PaymentCheque {
    PaymentCheque {
        sender_key: sender_key.to_string(),
        sender_commitment: vec![],
        recipient_key: recipient_key.to_string(),
        recipient_commitment: vec![],
        value: None,
        nonce,
    }
}

fn claim(key: &str, face_value: u128, max_amount: u128) -> Channel {
    Channel {
        key: key.to_string(),
        max_amount,
        face_value: Some(face_value),
        approve_signers: vec![],
    }
}

#[test]
fn test_init() {
    let msg = InstantiateMsg {
        denom: Denom::Cw20("0x01".to_string()),
        admin: Some("0x02".to_string()),
        auto_release_time: 100,
        max_recipient: 1024,
    };
    let cfg = init_config(msg, "admin".to_string());
    assert_eq!(cfg.owner, "admin".to_string());
}

#[test]
fn test_add_payment() {
    let msg = InstantiateMsg {
        denom: Denom::Cw20("cw20_contract_addr".to_string()),
        admin: Some("admin_addr".to_string()),
        auto_release_time: 100,
        max_recipient: 1024,
    };
    let cfg = init_config(msg, "admin".to_string());
    let mut ledger = PaymentLedger::new();

    let res = handle_cw20_open(
        &mut ledger,
        &cfg,
        &"cw20_contract_addr".to_string(),
        10000,
        "sender_pubkey_hash".to_string(),
        vec![claim("recipient_pubkey_hash1", 100, 10000)],
        "operator".to_string(),
    );
    assert!(res.is_ok());
}

#[test]
fn test_cashing() {
    let msg = InstantiateMsg {
        denom: Denom::Cw20("cw20_contract_addr".to_string()),
        admin: Some("admin".to_string()),
        auto_release_time: 100,
        max_recipient: 1024,
    };
    let cfg = init_config(msg, "admin".to_string());
    let mut ledger = PaymentLedger::new();

    // face_value = 100; total_amount = 10000;
    handle_cw20_open(
        &mut ledger,
        &cfg,
        &"cw20_contract_addr".to_string(),
        10000,
        "sender_pubkey_hash".to_string(),
        vec![claim("recipient_pubkey_hash1", 100, 10000)],
        "operator".to_string(),
    )
    .unwrap();

    handle_cw20_open(
        &mut ledger,
        &cfg,
        &"cw20_contract_addr".to_string(),
        20000,
        "sender_pubkey_hash".to_string(),
        vec![claim("recipient_pubkey_hash2", 200, 20000)],
        "operator".to_string(),
    )
    .unwrap();

    let listing = query(
        &ledger,
        &cfg,
        QueryMsg::PaymentChan {
            sender_pubkey_hash: "sender_pubkey_hash".to_string(),
            recipient_pubkey_hash: None,
            page: None,
            size: None,
        },
    )
    .unwrap();
    match listing {
        QueryAnswer::PaymentChan(slots) => assert_eq!(slots.unwrap().len(), 2),
        _ => panic!("unexpected query answer"),
    }

    let cheques = vec![
        cheque("sender_pubkey_hash", "recipient_pubkey_hash1", 1),
        cheque("sender_pubkey_hash", "recipient_pubkey_hash1", 3),
    ];
    let verdicts: Vec<bool> = cheques
        .iter()
        .map(|c| {
            verify_commitment(&c.sender_key, CommitmentType::Cheque, &c.sender_commitment).is_ok()
        })
        .collect();

    let msgs = cashing(
        &mut ledger,
        &cfg,
        "cashing_account".to_string(),
        "recipient_pubkey_hash1".to_string(),
        cheques,
        verdicts,
    )
    .unwrap();
    assert_eq!(msgs.len(), 1);
    // 2 cheques: (1 - 0) * 100 + (3 - 1) * 100 = 300
    assert_eq!(
        msgs[0],
        TransferInstruction::Cw20 {
            contract_addr: "cw20_contract_addr".to_string(),
            recipient: "cashing_account".to_string(),
            amount: 300,
        }
    );
}

#[test]
fn test_update_config() {
    let msg = InstantiateMsg {
        denom: Denom::Cw20("0x01".to_string()),
        admin: Some("0x02".to_string()),
        auto_release_time: 100,
        max_recipient: 1024,
    };
    let mut cfg = init_config(msg, "admin".to_string());

    assert_eq!(cfg.denom, Denom::Cw20("0x01".to_string()));
    assert_eq!(cfg.owner, "admin".to_string());
    assert_eq!(cfg.auto_release_time, 100);
    assert_eq!(cfg.max_recipient, 1024);

    let res = update_config(
        &mut cfg,
        "admin".to_string(),
        Some(2000000),
        Some("new_owner".to_string()),
        Some(10),
    );
    assert!(res.is_ok());
    assert_eq!(cfg.denom, Denom::Cw20("0x01".to_string()));
    assert_eq!(cfg.auto_release_time, 2000000);
    assert_eq!(cfg.max_recipient, 10);
    assert_eq!(cfg.owner, "new_owner".to_string());

    let res = update_config(
        &mut cfg,
        "admin".to_string(),
        Some(2000000),
        Some("new_owner".to_string()),
        Some(10),
    );
    assert!(res.is_err());
}

#[test]
fn test_close_payment_chan() {
    let msg = InstantiateMsg {
        denom: Denom::Cw20("cw20_contract_addr".to_string()),
        admin: Some("admin".to_string()),
        auto_release_time: 100,
        max_recipient: 1024,
    };
    let cfg = init_config(msg, "admin".to_string());
    let mut ledger = PaymentLedger::new();

    // face_value = 100; total_amount = 10000;
    handle_cw20_open(
        &mut ledger,
        &cfg,
        &"cw20_contract_addr".to_string(),
        10000,
        "sender_pubkey_hash".to_string(),
        vec![claim("recipient_pubkey_hash1", 100, 10000)],
        "operator".to_string(),
    )
    .unwrap();

    let closures = vec![(
        "recipient_pubkey_hash1".to_string(),
        verify_commitment(
            &"recipient_pubkey_hash1".to_string(),
            CommitmentType::CloseChannel,
            &vec![],
        )
        .is_ok(),
    )];

    let msgs = close_payment(
        &mut ledger,
        &cfg,
        "operator".to_string(),
        1571797419,
        "sender_pubkey_hash".to_string(),
        closures,
    )
    .unwrap();
    assert_eq!(msgs.len(), 1);

    // The cooperative close refunded the untouched escrow to the operator.
    assert_eq!(
        msgs[0],
        TransferInstruction::Cw20 {
            contract_addr: "cw20_contract_addr".to_string(),
            recipient: "operator".to_string(),
            amount: 10000,
        }
    );
    let listing = payment_chan(&ledger, "sender_pubkey_hash".to_string(), None, None, None)
        .unwrap()
        .unwrap();
    assert_eq!(listing.len(), 0);
}
