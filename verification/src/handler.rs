//! The operations of the settlement engine.
//!
//! Each handler takes the ledger and configuration it works on, together
//! with the caller's identity and, where the dispute window matters, the
//! current time, and returns either the settlement instructions to emit or
//! the error that aborted it.  On an error the state is left untouched.

use vstd::prelude::*;

use crate::error::{ContractError, ErrorV};
use crate::model::{
    add_signer_spec, apply_claims, cash_all, cash_one, cashing_spec, claims_total, close_fold,
    close_spec, cw20_source_ok, distinct_keys, has_key, ledger_wf, lemma_claims_total_nonneg,
    lemma_claims_total_skip_step, lemma_remove_key_at, lemma_set_key_update, lookup,
    new_recipient_v, open_spec, payment_chan_spec, set_key, transfer_of, update_config_spec,
    ChannelV, ChequeV, ClaimV, LedgerV, RecipientV, TransferInstructionV,
};
use crate::msg::{Channel, ExecuteMsg, PaymentCheque, QueryAnswer, QueryMsg, TransferInstruction};
use crate::state::{clone_string_vec, Config, Denom, PaymentChannel, PaymentLedger, Recipient};

verus! {

/// Page size of the channel listing when the query names none.
pub const DEFAULT_SIZE: u32 = 10;

/// What a commitment authorizes: redeeming a cheque or closing a channel.
pub enum CommitmentType {
    Cheque,
    CloseChannel,
}

/// Placeholder commitment verifier: it accepts every commitment.  A
/// deployment substitutes a cryptographic verifier at the boundary and
/// hands the per-commitment verdicts to `close_payment` and `cashing`,
/// which are verified for every verdict.
pub fn verify_commitment(
    _sender_pubkey_hash: &String,
    _commitment_type: CommitmentType,
    _commitment: &Vec<u8>,
) -> (r: Result<(), ContractError>)
    ensures
        r is Ok,
{
    Ok(())
}

/// Gate for a cashing batch: every cheque's commitment must have been
/// accepted by the verifier, else the whole batch is rejected.
pub fn payment_check_interval_verify(verdicts: &Vec<bool>) -> (r: Result<(), ContractError>)
    ensures
        r is Ok <==> (forall|i: int| 0 <= i < verdicts@.len() ==> verdicts@[i]),
        r is Err ==> r->Err_0@ == ErrorV::ChecksVerifyFailed,
{
    let n = verdicts.len();
    let mut i: usize = 0;
    while i < n
        invariant
            i <= n,
            n == verdicts@.len(),
            forall|j: int| 0 <= j < i ==> verdicts@[j],
        decreases n - i,
    {
        if !verdicts[i] {
            return Err(ContractError::ChecksVerifyFailed);
        }
        i += 1;
    }
    Ok(())
}

/// Authorization gate for administration: only the configured owner passes.
pub fn owner_only(cfg: &Config, caller: &String) -> (r: Result<bool, ContractError>)
    ensures
        r is Ok <==> caller@ == cfg@.owner,
        r is Ok ==> r->Ok_0,
        r is Err ==> r->Err_0@ == (ErrorV::NotOwner { sender: caller@, owner: cfg@.owner }),
{
    if *caller == cfg.owner {
        Ok(true)
    } else {
        Err(ContractError::NotOwner { sender: caller.clone(), owner: cfg.owner.clone() })
    }
}

/// Administer the configuration: each field provided replaces the stored
/// one, the rest stay as they were.
pub fn update_config(
    cfg: &mut Config,
    caller: String,
    auto_release_time: Option<u64>,
    owner: Option<String>,
    max_recipient: Option<u32>,
) -> (r: Result<(), ContractError>)
    ensures
        match r {
            Ok(_) => update_config_spec(
                old(cfg)@,
                caller@,
                auto_release_time,
                owner.deep_view(),
                max_recipient,
            ) == Ok::<_, ErrorV>(final(cfg)@),
            Err(e) => {
                &&& final(cfg)@ == old(cfg)@
                &&& update_config_spec(
                    old(cfg)@,
                    caller@,
                    auto_release_time,
                    owner.deep_view(),
                    max_recipient,
                ) == Err::<crate::model::ConfigV, _>(e@)
            },
        },
{
    let gate = owner_only(cfg, &caller);
    match gate {
        Err(e) => Err(e),
        Ok(_) => {
            if let Some(t) = auto_release_time {
                cfg.auto_release_time = t;
            }
            if let Some(o) = owner {
                cfg.owner = o;
            }
            if let Some(m) = max_recipient {
                cfg.max_recipient = m;
            }
            Ok(())
        },
    }
}

/// The configuration a deployment starts from: fields as given, the
/// instantiating caller as owner.
pub fn init_config(msg: crate::msg::InstantiateMsg, sender: String) -> (cfg: Config)
    ensures
        cfg@.denom == msg.denom@,
        cfg@.auto_release_time == msg.auto_release_time,
        cfg@.owner == sender@,
        cfg@.max_recipient == msg.max_recipient,
{
    Config {
        denom: msg.denom,
        auto_release_time: msg.auto_release_time,
        owner: sender,
        max_recipient: msg.max_recipient,
    }
}

/// The stored configuration, as a query answers it.
pub fn config(cfg: &Config) -> (r: Config)
    ensures
        r@ == cfg@,
{
    cfg.clone()
}

/// Open a channel or top up an existing one with a batch of recipient
/// claims, against the deposit received in this call.  The deposit must
/// cover the batch total, an existing channel must name the same operator,
/// and no insertion may push past the recipient-slot cap.
pub fn build_payment_chan(
    ledger: &mut PaymentLedger,
    cfg: &Config,
    amount_received: u128,
    sender_pubkey_hash: String,
    channels: Vec<Channel>,
    operator: String,
) -> (r: Result<(), ContractError>)
    requires
        ledger_wf(old(ledger)@),
    ensures
        ledger_wf(final(ledger)@),
        match r {
            Ok(_) => open_spec(
                old(ledger)@,
                sender_pubkey_hash@,
                operator@,
                channels.deep_view(),
                amount_received,
                cfg@.max_recipient,
            ) == Ok::<LedgerV, ErrorV>(final(ledger)@),
            Err(e) => {
                &&& final(ledger)@ == old(ledger)@
                &&& open_spec(
                    old(ledger)@,
                    sender_pubkey_hash@,
                    operator@,
                    channels.deep_view(),
                    amount_received,
                    cfg@.max_recipient,
                ) == Err::<LedgerV, ErrorV>(e@)
            },
        },
{
    let ghost led0 = ledger@;
    let ghost claims = channels.deep_view();
    let ghost chan_key = sender_pubkey_hash@;
    let ghost maxr = cfg@.max_recipient;

    let n = channels.len();

    // Sum the batch's escrow amounts by checked addition.
    let mut total: u128 = 0;
    let mut i: usize = 0;
    proof {
        assert(claims.skip(0) =~= claims);
    }
    while i < n
        invariant
            i <= n,
            n == channels@.len(),
            claims == channels.deep_view(),
            led0 == old(ledger)@,
            ledger@ == led0,
            ledger_wf(led0),
            chan_key == sender_pubkey_hash@,
            maxr == cfg@.max_recipient,
            total + claims_total(claims.skip(i as int)) == claims_total(claims),
        decreases n - i,
    {
        proof {
            lemma_claims_total_skip_step(claims, i as int);
            lemma_claims_total_nonneg(claims.skip(i as int + 1));
            assert(claims[i as int] == channels@[i as int]@);
        }
        match total.checked_add(channels[i].max_amount) {
            Some(t) => {
                total = t;
            },
            None => {
                return Err(ContractError::ArithmeticOverflow);
            },
        }
        i += 1;
    }
    proof {
        assert(claims.skip(n as int) =~= Seq::<ClaimV>::empty());
        assert(total == claims_total(claims));
    }
    if amount_received < total {
        return Err(ContractError::InsufficientFund);
    }

    // Load the channel, or start a fresh one for this key.
    let found = ledger.find_channel(&sender_pubkey_hash);
    let mut chan: PaymentChannel = match found {
        Some(ci) => ledger.channels[ci].1.clone(),
        None => PaymentChannel { operator: operator.clone(), recipients: Vec::new() },
    };
    let ghost chan0 = chan@;
    proof {
        if found is None {
            assert(chan@.recipients =~= Seq::<(Seq<char>, RecipientV)>::empty());
        }
        assert(chan0 == (match lookup(led0, chan_key) {
            Some(c) => c,
            None => ChannelV { operator: operator@, recipients: Seq::empty() },
        }));
    }
    if !(chan.operator == operator) {
        return Err(ContractError::NotOperator);
    }

    // Apply the batch, claim by claim.
    let ghost orig_rs = chan0.recipients;
    proof {
        assert(claims.skip(0) =~= claims);
        if found is Some {
            let ci = found->0;
            assert(led0[ci as int].1.wf());
        }
    }
    let mut i: usize = 0;
    while i < n
        invariant
            i <= n,
            n == channels@.len(),
            claims == channels.deep_view(),
            led0 == old(ledger)@,
            ledger@ == led0,
            ledger_wf(led0),
            maxr == cfg@.max_recipient,
            claims_total(claims) <= u128::MAX,
            amount_received >= claims_total(claims),
            chan_key == sender_pubkey_hash@,
            chan0 == (match lookup(led0, chan_key) {
                Some(c) => c,
                None => ChannelV { operator: operator@, recipients: Seq::empty() },
            }),
            chan0.operator == operator@,
            orig_rs == chan0.recipients,
            chan@.operator == chan0.operator,
            distinct_keys(chan@.recipients),
            forall|j: int|
                0 <= j < chan@.recipients.len() ==> (#[trigger] chan@.recipients[j]).1.wf(),
            apply_claims(chan@.recipients, claims.skip(i as int), maxr) == apply_claims(
                orig_rs,
                claims,
                maxr,
            ),
        decreases n - i,
    {
        proof {
            assert(claims.skip(i as int)[0] == claims[i as int]);
            assert(claims.skip(i as int).drop_first() =~= claims.skip(i as int + 1));
            assert(claims[i as int] == channels@[i as int]@);
        }
        let found_r = chan.find_recipient(&channels[i].key);
        match found_r {
            Some(j) => {
                let cur_max = chan.recipients[j].1.max_amount;
                proof {
                    assert(chan@.recipients[j as int].1.max_amount == cur_max);
                }
                match cur_max.checked_add(channels[i].max_amount) {
                    Some(nm) => {
                        let ghost rs_before = chan@.recipients;
                        let ghost topped = RecipientV {
                            max_amount: nm,
                            ..rs_before[j as int].1
                        };
                        chan.recipients[j].1.max_amount = nm;
                        proof {
                            assert(chan@.recipients =~= rs_before.update(
                                j as int,
                                (claims[i as int].key, topped),
                            ));
                            lemma_set_key_update(rs_before, j as int, claims[i as int].key, topped);
                        }
                    },
                    None => {
                        proof {
                            assert(apply_claims(chan@.recipients, claims.skip(i as int), maxr)
                                == Err::<Seq<(Seq<char>, RecipientV)>, ErrorV>(
                                ErrorV::ArithmeticOverflow,
                            ));
                        }
                        return Err(ContractError::ArithmeticOverflow);
                    },
                }
            },
            None => {
                if chan.recipients.len() >= cfg.max_recipient as usize {
                    proof {
                        assert(apply_claims(chan@.recipients, claims.skip(i as int), maxr)
                            == Err::<Seq<(Seq<char>, RecipientV)>, ErrorV>(
                            ErrorV::ExceedRecipientNum,
                        ));
                    }
                    return Err(ContractError::ExceedRecipientNum);
                }
                let slot = Recipient {
                    max_amount: channels[i].max_amount,
                    withdrawl_seq: None,
                    face_value: channels[i].face_value,
                    auto_release: None,
                    approve_signers: clone_string_vec(&channels[i].approve_signers),
                };
                let key = channels[i].key.clone();
                let ghost rs_before = chan@.recipients;
                chan.recipients.push((key, slot));
                proof {
                    assert(chan@.recipients =~= rs_before.push(
                        (claims[i as int].key, new_recipient_v(claims[i as int])),
                    ));
                }
            },
        }
        i += 1;
    }
    proof {
        assert(claims.skip(n as int) =~= Seq::<ClaimV>::empty());
        assert(apply_claims(orig_rs, claims, maxr) == Ok::<_, ErrorV>(chan@.recipients));
    }

    // Commit the updated channel.
    let ghost chan_final = chan@;
    match found {
        Some(ci) => {
            ledger.channels[ci].1 = chan;
            proof {
                assert(ledger@ =~= led0.update(ci as int, (chan_key, chan_final)));
                lemma_set_key_update(led0, ci as int, chan_key, chan_final);
                assert(has_key(led0, chan_key));
            }
        },
        None => {
            ledger.channels.push((sender_pubkey_hash, chan));
            proof {
                assert(ledger@ =~= led0.push((chan_key, chan_final)));
            }
        },
    }
    proof {
        assert(open_spec(led0, chan_key, operator@, claims, amount_received, maxr)
            == Ok::<LedgerV, ErrorV>(ledger@));
        assert(ledger_wf(ledger@));
    }
    Ok(())
}

/// Redeem a batch of cheques for one recipient, as one unit: every cheque
/// must validate, or nothing is committed.  Each cheque's sequence number
/// must strictly advance its slot, and the slot's cumulative value must
/// stay within its ceiling.  Emits one instruction paying the batch total
/// to the caller.  `verdicts` carries the verifier's outcome for each
/// cheque's commitment, in the same order.
pub fn cashing(
    ledger: &mut PaymentLedger,
    cfg: &Config,
    caller: String,
    recipient_pubkey_hash: String,
    cheques: Vec<PaymentCheque>,
    verdicts: Vec<bool>,
) -> (r: Result<Vec<TransferInstruction>, ContractError>)
    requires
        ledger_wf(old(ledger)@),
        verdicts@.len() == cheques@.len(),
    ensures
        ledger_wf(final(ledger)@),
        ({
            let spec_r = cashing_spec(
                old(ledger)@,
                recipient_pubkey_hash@,
                cheques.deep_view(),
                verdicts@,
            );
            match r {
                Ok(msgs) => {
                    &&& spec_r is Ok
                    &&& final(ledger)@ == spec_r->Ok_0.0
                    &&& msgs.deep_view() == seq![
                        transfer_of(cfg@.denom, caller@, spec_r->Ok_0.1),
                    ]
                },
                Err(e) => {
                    &&& final(ledger)@ == old(ledger)@
                    &&& spec_r == Err::<(LedgerV, u128), ErrorV>(e@)
                },
            }
        }),
{
    let ghost led0 = ledger@;
    let ghost chs = cheques.deep_view();
    let ghost rk = recipient_pubkey_hash@;

    match payment_check_interval_verify(&verdicts) {
        Err(e) => {
            return Err(e);
        },
        Ok(_) => {},
    }

    let mut work: PaymentLedger = ledger.clone();
    let mut total: u128 = 0;
    let n = cheques.len();
    let mut i: usize = 0;
    proof {
        assert(chs.skip(0) =~= chs);
    }
    while i < n
        invariant
            i <= n,
            n == cheques@.len(),
            chs == cheques.deep_view(),
            rk == recipient_pubkey_hash@,
            led0 == old(ledger)@,
            ledger@ == led0,
            ledger_wf(led0),
            ledger_wf(work@),
            forall|j: int| 0 <= j < verdicts@.len() ==> verdicts@[j],
            cash_all(work@, rk, chs.skip(i as int), total) == cash_all(led0, rk, chs, 0),
        decreases n - i,
    {
        proof {
            assert(chs.skip(i as int)[0] == chs[i as int]);
            assert(chs.skip(i as int).drop_first() =~= chs.skip(i as int + 1));
            assert(chs[i as int] == cheques@[i as int]@);
        }
        let ci = match work.find_channel(&cheques[i].sender_key) {
            Some(ci) => ci,
            None => {
                return Err(ContractError::UnknownChannel);
            },
        };
        let ghost chan_before = work@[ci as int].1;
        let rj = match work.channels[ci].1.find_recipient(&recipient_pubkey_hash) {
            Some(j) => j,
            None => {
                return Err(ContractError::UnknownRecipient);
            },
        };
        let ghost r_before = chan_before.recipients[rj as int].1;
        proof {
            assert(work.channels@[ci as int].1@ == chan_before);
            assert(work.channels@[ci as int].1.recipients@[rj as int].1@ == r_before);
        }
        let prev: u64 = match work.channels[ci].1.recipients[rj].1.withdrawl_seq {
            Some(s) => s,
            None => 0,
        };
        let nonce = cheques[i].nonce;
        if nonce <= prev {
            return Err(ContractError::StaleOrReplayedSequence);
        }
        let face: u128 = match work.channels[ci].1.recipients[rj].1.face_value {
            Some(f) => f,
            None => 0,
        };
        let max_amt = work.channels[ci].1.recipients[rj].1.max_amount;
        let product = match (nonce as u128).checked_mul(face) {
            Some(p) => p,
            None => {
                return Err(ContractError::ArithmeticOverflow);
            },
        };
        if product > max_amt {
            return Err(ContractError::ArithmeticOverflow);
        }
        proof {
            assert((prev as int) * (face as int) <= (nonce as int) * (face as int))
                by (nonlinear_arith)
                requires
                    0 <= prev <= nonce,
                    0 <= face,
            ;
        }
        let prev_consumed = (prev as u128) * face;
        let payable = product - prev_consumed;
        proof {
            assert((nonce as int) * (face as int) - (prev as int) * (face as int) == ((
            nonce as int) - (prev as int)) * (face as int)) by (nonlinear_arith);
        }
        total = match total.checked_add(payable) {
            Some(t) => t,
            None => {
                return Err(ContractError::ArithmeticOverflow);
            },
        };
        let ghost work0 = work@;
        let ghost redeemed = RecipientV { withdrawl_seq: Some(nonce), ..r_before };
        let ghost chan2 = ChannelV {
            operator: chan_before.operator,
            recipients: set_key(chan_before.recipients, rk, redeemed),
        };
        work.channels[ci].1.recipients[rj].1.withdrawl_seq = Some(nonce);
        proof {
            assert(work.channels@[ci as int].1.recipients.deep_view()
                =~= chan_before.recipients.update(rj as int, (rk, redeemed)));
            lemma_set_key_update(chan_before.recipients, rj as int, rk, redeemed);
            assert(work@[ci as int].1 == chan2);
            assert(work@ =~= work0.update(ci as int, (chs[i as int].sender_key, chan2)));
            lemma_set_key_update(work0, ci as int, chs[i as int].sender_key, chan2);
            assert(cash_one(work0, rk, chs[i as int]) == Ok::<_, ErrorV>((work@, payable)));
            assert(redeemed.wf());
            assert(ledger_wf(work@));
        }
        i += 1;
    }
    proof {
        assert(chs.skip(n as int) =~= Seq::<ChequeV>::empty());
        assert(cash_all(led0, rk, chs, 0) == Ok::<_, ErrorV>((work@, total)));
    }
    *ledger = work;
    let msgs = build_transfer_msg(cfg, caller, total);
    Ok(msgs)
}

/// Accept a deposit arriving through the token contract: the deployment
/// must settle in that contract's tokens, then the deposit opens or tops
/// up the channel like any other.
pub fn handle_cw20_open(
    ledger: &mut PaymentLedger,
    cfg: &Config,
    token_contract: &String,
    amount: u128,
    sender_pubkey_hash: String,
    channels: Vec<Channel>,
    operator: String,
) -> (r: Result<(), ContractError>)
    requires
        ledger_wf(old(ledger)@),
    ensures
        ledger_wf(final(ledger)@),
        ({
            let spec_r = if !cw20_source_ok(cfg@.denom, token_contract@) {
                Err::<LedgerV, ErrorV>(ErrorV::UnsupportDenom)
            } else {
                open_spec(
                    old(ledger)@,
                    sender_pubkey_hash@,
                    operator@,
                    channels.deep_view(),
                    amount,
                    cfg@.max_recipient,
                )
            };
            match r {
                Ok(_) => spec_r == Ok::<LedgerV, ErrorV>(final(ledger)@),
                Err(e) => final(ledger)@ == old(ledger)@ && spec_r == Err::<LedgerV, ErrorV>(e@),
            }
        }),
{
    match &cfg.denom {
        Denom::Native(_) => Err(ContractError::UnsupportDenom),
        Denom::Cw20(addr) => {
            if !(*addr == *token_contract) {
                Err(ContractError::UnsupportDenom)
            } else {
                build_payment_chan(ledger, cfg, amount, sender_pubkey_hash, channels, operator)
            }
        },
    }
}

/// Append identities to a slot's authorized co-signer list.  Only the
/// operator may do so; duplicates are kept as given.
pub fn add_signer(
    ledger: &mut PaymentLedger,
    caller: String,
    sender_pubkey_hash: String,
    recipient_pubkey_hash: String,
    signers: Vec<String>,
) -> (r: Result<(), ContractError>)
    requires
        ledger_wf(old(ledger)@),
    ensures
        ledger_wf(final(ledger)@),
        match r {
            Ok(_) => add_signer_spec(
                old(ledger)@,
                caller@,
                sender_pubkey_hash@,
                recipient_pubkey_hash@,
                signers.deep_view(),
            ) == Ok::<LedgerV, ErrorV>(final(ledger)@),
            Err(e) => {
                &&& final(ledger)@ == old(ledger)@
                &&& add_signer_spec(
                    old(ledger)@,
                    caller@,
                    sender_pubkey_hash@,
                    recipient_pubkey_hash@,
                    signers.deep_view(),
                ) == Err::<LedgerV, ErrorV>(e@)
            },
        },
{
    let ghost led0 = ledger@;
    let ghost sgn = signers.deep_view();
    let ci = match ledger.find_channel(&sender_pubkey_hash) {
        Some(ci) => ci,
        None => {
            return Err(ContractError::UnknownChannel);
        },
    };
    let ghost chan0 = ledger@[ci as int].1;
    if !(ledger.channels[ci].1.operator == caller) {
        return Err(ContractError::NotOperator);
    }
    let rj = match ledger.channels[ci].1.find_recipient(&recipient_pubkey_hash) {
        Some(j) => j,
        None => {
            return Err(ContractError::UnknownRecipient);
        },
    };
    let ghost r0 = chan0.recipients[rj as int].1;
    let ghost old_strs = ledger.channels@[ci as int].1.recipients@[rj as int].1.approve_signers@;
    let ghost add_strs = signers@;
    let mut signers = signers;
    ledger.channels[ci].1.recipients[rj].1.approve_signers.append(&mut signers);
    proof {
        let extended = RecipientV { approve_signers: r0.approve_signers + sgn, ..r0 };
        let new_vec = ledger.channels@[ci as int].1.recipients@[rj as int].1.approve_signers;
        assert(new_vec@ == old_strs + add_strs);
        assert forall|m: int| 0 <= m < new_vec@.len() implies #[trigger] new_vec.deep_view()[m]
            == (r0.approve_signers + sgn)[m] by {
            if m < old_strs.len() {
                assert(new_vec@[m] == old_strs[m]);
            } else {
                assert(new_vec@[m] == add_strs[m - old_strs.len()]);
            }
        }
        assert(new_vec.deep_view() =~= r0.approve_signers + sgn);
        assert(ledger.channels@[ci as int].1.recipients@[rj as int].1@ == extended);
        assert(ledger.channels@[ci as int].1.recipients.deep_view() =~= chan0.recipients.update(
            rj as int,
            (recipient_pubkey_hash@, extended),
        ));
        lemma_set_key_update(chan0.recipients, rj as int, recipient_pubkey_hash@, extended);
        let chan2 = ChannelV {
            operator: chan0.operator,
            recipients: set_key(chan0.recipients, recipient_pubkey_hash@, extended),
        };
        assert(ledger@[ci as int].1 == chan2);
        assert(ledger@ =~= led0.update(ci as int, (sender_pubkey_hash@, chan2)));
        lemma_set_key_update(led0, ci as int, sender_pubkey_hash@, chan2);
        assert(extended.wf());
        assert(ledger_wf(ledger@));
    }
    Ok(())
}

/// Drive the two-phase close over a batch of recipient slots.  Only the
/// channel's operator may close.  A slot whose close commitment the
/// verifier accepted settles at once; otherwise the first unilateral close
/// opens the dispute window, a close after the window settles, and a close
/// during the window changes nothing.  An absent key is skipped.  Emits
/// one instruction refunding the settled remainder to the operator, or
/// none when nothing was settled.  Each entry of `channels` carries the
/// recipient key and the verifier's verdict on its close commitment.
pub fn close_payment(
    ledger: &mut PaymentLedger,
    cfg: &Config,
    caller: String,
    now: u64,
    sender_pubkey_hash: String,
    channels: Vec<(String, bool)>,
) -> (r: Result<Vec<TransferInstruction>, ContractError>)
    requires
        ledger_wf(old(ledger)@),
    ensures
        ledger_wf(final(ledger)@),
        ({
            let spec_r = close_spec(
                old(ledger)@,
                caller@,
                now,
                cfg@.auto_release_time,
                sender_pubkey_hash@,
                channels.deep_view(),
            );
            match r {
                Ok(msgs) => {
                    &&& spec_r is Ok
                    &&& final(ledger)@ == spec_r->Ok_0.0
                    &&& msgs.deep_view() == (if spec_r->Ok_0.1 == 0 {
                        Seq::<TransferInstructionV>::empty()
                    } else {
                        seq![transfer_of(cfg@.denom, caller@, spec_r->Ok_0.1)]
                    })
                },
                Err(e) => {
                    &&& final(ledger)@ == old(ledger)@
                    &&& spec_r == Err::<(LedgerV, u128), ErrorV>(e@)
                },
            }
        }),
{
    let ghost led0 = ledger@;
    let ghost cls = channels.deep_view();
    let ghost chan_key = sender_pubkey_hash@;
    let ghost window = cfg@.auto_release_time;

    let ci = match ledger.find_channel(&sender_pubkey_hash) {
        Some(ci) => ci,
        None => {
            return Err(ContractError::UnknownChannel);
        },
    };
    let ghost chan0 = ledger@[ci as int].1;
    if !(ledger.channels[ci].1.operator == caller) {
        return Err(ContractError::NotOperator);
    }

    let mut chan = ledger.channels[ci].1.clone();
    let mut refund: u128 = 0;
    let n = channels.len();
    let mut i: usize = 0;
    proof {
        assert(cls.skip(0) =~= cls);
        assert(led0[ci as int].1.wf());
    }
    while i < n
        invariant
            i <= n,
            n == channels@.len(),
            cls == channels.deep_view(),
            led0 == old(ledger)@,
            ledger@ == led0,
            ledger_wf(led0),
            chan_key == sender_pubkey_hash@,
            window == cfg@.auto_release_time,
            ci < ledger.channels@.len(),
            forall|j: int| 0 <= j < ci ==> led0[j].0 != chan_key,
            led0[ci as int].0 == chan_key,
            lookup(led0, chan_key) == Some(chan0),
            chan0.operator == caller@,
            chan@.operator == chan0.operator,
            distinct_keys(chan@.recipients),
            forall|j: int|
                0 <= j < chan@.recipients.len() ==> (#[trigger] chan@.recipients[j]).1.wf(),
            close_fold(chan@.recipients, cls.skip(i as int), window, now, refund) == close_fold(
                chan0.recipients,
                cls,
                window,
                now,
                0,
            ),
        decreases n - i,
    {
        proof {
            assert(cls.skip(i as int)[0] == cls[i as int]);
            assert(cls.skip(i as int).drop_first() =~= cls.skip(i as int + 1));
            assert(cls[i as int] == (channels@[i as int].0@, channels@[i as int].1));
        }
        let accepted = channels[i].1;
        match chan.find_recipient(&channels[i].0) {
            None => {},
            Some(j) => {
                let ghost rs_before = chan@.recipients;
                let ghost r_v = rs_before[j as int].1;
                proof {
                    assert(chan.recipients@[j as int].1@ == r_v);
                }
                if accepted {
                    let amt = chan.recipients[j].1.remain();
                    refund = match refund.checked_add(amt) {
                        Some(t) => t,
                        None => {
                            return Err(ContractError::ArithmeticOverflow);
                        },
                    };
                    chan.recipients.remove(j);
                    proof {
                        assert(chan@.recipients =~= rs_before.remove(j as int));
                        lemma_remove_key_at(rs_before, j as int, cls[i as int].0);
                    }
                } else {
                    let ar = chan.recipients[j].1.auto_release;
                    match ar {
                        Some(release_at) => {
                            if now >= release_at {
                                let amt = chan.recipients[j].1.remain();
                                refund = match refund.checked_add(amt) {
                                    Some(t) => t,
                                    None => {
                                        return Err(ContractError::ArithmeticOverflow);
                                    },
                                };
                                chan.recipients.remove(j);
                                proof {
                                    assert(chan@.recipients =~= rs_before.remove(j as int));
                                    lemma_remove_key_at(rs_before, j as int, cls[i as int].0);
                                }
                            }
                        },
                        None => {
                            let release = match now.checked_add(cfg.auto_release_time) {
                                Some(t) => t,
                                None => {
                                    return Err(ContractError::ArithmeticOverflow);
                                },
                            };
                            let ghost requested = RecipientV {
                                auto_release: Some(release),
                                ..r_v
                            };
                            chan.recipients[j].1.auto_release = Some(release);
                            proof {
                                assert(chan@.recipients =~= rs_before.update(
                                    j as int,
                                    (cls[i as int].0, requested),
                                ));
                                lemma_set_key_update(rs_before, j as int, cls[i as int].0, requested);
                            }
                        },
                    }
                }
            },
        }
        i += 1;
    }
    proof {
        assert(cls.skip(n as int) =~= Seq::<(Seq<char>, bool)>::empty());
        assert(close_fold(chan0.recipients, cls, window, now, 0) == Ok::<_, ErrorV>(
            (chan@.recipients, refund),
        ));
    }
    let ghost chan_final = chan@;
    ledger.channels[ci].1 = chan;
    proof {
        assert(ledger@ =~= led0.update(ci as int, (chan_key, chan_final)));
        lemma_set_key_update(led0, ci as int, chan_key, chan_final);
        assert(ledger_wf(ledger@));
    }
    if refund == 0 {
        let msgs: Vec<TransferInstruction> = Vec::new();
        proof {
            assert(msgs.deep_view() =~= Seq::<TransferInstructionV>::empty());
        }
        Ok(msgs)
    } else {
        Ok(build_transfer_msg(cfg, caller, refund))
    }
}

/// List a channel's recipient slots: the one slot under a given recipient
/// key, or the page `[start, start + size)` of the slots in insertion
/// order.
pub fn payment_chan(
    ledger: &PaymentLedger,
    sender_pubkey_hash: String,
    recipient_pubkey_hash: Option<String>,
    page: Option<u32>,
    size: Option<u32>,
) -> (r: Result<Option<Vec<Recipient>>, ContractError>)
    ensures
        ({
            let spec_r = payment_chan_spec(
                ledger@,
                sender_pubkey_hash@,
                recipient_pubkey_hash.deep_view(),
                page,
                size,
            );
            match r {
                Ok(o) => spec_r is Ok && o is Some && o->0.deep_view() == spec_r->Ok_0,
                Err(e) => spec_r == Err::<Seq<RecipientV>, ErrorV>(e@),
            }
        }),
{
    let ci = match ledger.find_channel(&sender_pubkey_hash) {
        Some(ci) => ci,
        None => {
            return Err(ContractError::UnknownChannel);
        },
    };
    let ghost chan_v = ledger@[ci as int].1;
    let mut res: Vec<Recipient> = Vec::new();
    match recipient_pubkey_hash {
        Some(rk) => {
            match ledger.channels[ci].1.find_recipient(&rk) {
                Some(j) => {
                    res.push(ledger.channels[ci].1.recipients[j].1.clone());
                    proof {
                        assert(res.deep_view() =~= seq![chan_v.recipients[j as int].1]);
                    }
                },
                None => {
                    proof {
                        assert(res.deep_view() =~= Seq::<RecipientV>::empty());
                    }
                },
            }
        },
        None => {
            let sz: u32 = match size {
                Some(s) => s,
                None => DEFAULT_SIZE,
            };
            let pg: u32 = match page {
                Some(p) => p,
                None => 0,
            };
            proof {
                assert((pg as int) * (sz as int) + (sz as int) < 0x10000000000000000)
                    by (nonlinear_arith)
                    requires
                        0 <= pg < 0x100000000,
                        0 <= sz < 0x100000000,
                ;
            }
            let start: u64 = (pg as u64) * (sz as u64);
            let len = ledger.channels[ci].1.recipients.len();
            let lo: usize = if start >= len as u64 {
                len
            } else {
                start as usize
            };
            let hi: usize = if start + (sz as u64) >= len as u64 {
                len
            } else {
                (start + (sz as u64)) as usize
            };
            let ghost lo_spec = lo as int;
            let ghost hi_spec = hi as int;
            let mut j: usize = lo;
            while j < hi
                invariant
                    lo <= j <= hi <= len,
                    len == ledger.channels@[ci as int].1.recipients@.len(),
                    ci < ledger.channels@.len(),
                    chan_v == ledger@[ci as int].1,
                    res@.len() == j - lo,
                    forall|m: int|
                        0 <= m < res@.len() ==> (#[trigger] res@[m])@ == chan_v.recipients[lo + m].1,
                decreases hi - j,
            {
                res.push(ledger.channels[ci].1.recipients[j].1.clone());
                j += 1;
            }
            proof {
                assert(res.deep_view() =~= chan_v.recipients.subrange(lo_spec, hi_spec).map_values(
                    |p: (Seq<char>, RecipientV)| p.1,
                ));
            }
        },
    }
    Ok(Some(res))
}

/// Dispatch one operation.  `asset_received` is the deposit that
/// accompanied the call, as reported by the asset-transfer collaborator;
/// `now` is the current time it supplies for dispute-window comparisons.
pub fn execute(
    ledger: &mut PaymentLedger,
    cfg: &mut Config,
    caller: String,
    now: u64,
    asset_received: u128,
    msg: ExecuteMsg,
) -> (r: Result<Vec<TransferInstruction>, ContractError>)
    requires
        ledger_wf(old(ledger)@),
        msg matches ExecuteMsg::Cashing { cheques, verdicts, .. } ==> verdicts@.len()
            == cheques@.len(),
    ensures
        ledger_wf(final(ledger)@),
        match msg {
            ExecuteMsg::AddPaymentChan { chan_key, channels, operator } => {
                let op = match operator {
                    Some(o) => o@,
                    None => caller@,
                };
                let spec_r = open_spec(
                    old(ledger)@,
                    chan_key@,
                    op,
                    channels.deep_view(),
                    asset_received,
                    old(cfg)@.max_recipient,
                );
                &&& final(cfg)@ == old(cfg)@
                &&& match r {
                    Ok(msgs) => spec_r == Ok::<LedgerV, ErrorV>(final(ledger)@)
                        && msgs.deep_view() == Seq::<TransferInstructionV>::empty(),
                    Err(e) => final(ledger)@ == old(ledger)@ && spec_r == Err::<LedgerV, ErrorV>(
                        e@,
                    ),
                }
            },
            ExecuteMsg::ClosePaymentChan { chan_key, channels } => {
                let spec_r = close_spec(
                    old(ledger)@,
                    caller@,
                    now,
                    old(cfg)@.auto_release_time,
                    chan_key@,
                    channels.deep_view(),
                );
                &&& final(cfg)@ == old(cfg)@
                &&& match r {
                    Ok(msgs) => {
                        &&& spec_r is Ok
                        &&& final(ledger)@ == spec_r->Ok_0.0
                        &&& msgs.deep_view() == (if spec_r->Ok_0.1 == 0 {
                            Seq::<TransferInstructionV>::empty()
                        } else {
                            seq![transfer_of(old(cfg)@.denom, caller@, spec_r->Ok_0.1)]
                        })
                    },
                    Err(e) => final(ledger)@ == old(ledger)@ && spec_r == Err::<
                        (LedgerV, u128),
                        ErrorV,
                    >(e@),
                }
            },
            ExecuteMsg::AddSigner { chan_key, recipient_key, signers } => {
                let spec_r = add_signer_spec(
                    old(ledger)@,
                    caller@,
                    chan_key@,
                    recipient_key@,
                    signers.deep_view(),
                );
                &&& final(cfg)@ == old(cfg)@
                &&& match r {
                    Ok(msgs) => spec_r == Ok::<LedgerV, ErrorV>(final(ledger)@)
                        && msgs.deep_view() == Seq::<TransferInstructionV>::empty(),
                    Err(e) => final(ledger)@ == old(ledger)@ && spec_r == Err::<LedgerV, ErrorV>(
                        e@,
                    ),
                }
            },
            ExecuteMsg::Cashing { recipient_key, cheques, verdicts } => {
                let spec_r = cashing_spec(
                    old(ledger)@,
                    recipient_key@,
                    cheques.deep_view(),
                    verdicts@,
                );
                &&& final(cfg)@ == old(cfg)@
                &&& match r {
                    Ok(msgs) => {
                        &&& spec_r is Ok
                        &&& final(ledger)@ == spec_r->Ok_0.0
                        &&& msgs.deep_view() == seq![
                            transfer_of(old(cfg)@.denom, caller@, spec_r->Ok_0.1),
                        ]
                    },
                    Err(e) => final(ledger)@ == old(ledger)@ && spec_r == Err::<
                        (LedgerV, u128),
                        ErrorV,
                    >(e@),
                }
            },
            ExecuteMsg::UpdateConfig { owner, auto_release_time, max_recipient } => {
                let spec_r = update_config_spec(
                    old(cfg)@,
                    caller@,
                    auto_release_time,
                    owner.deep_view(),
                    max_recipient,
                );
                &&& final(ledger)@ == old(ledger)@
                &&& match r {
                    Ok(msgs) => spec_r == Ok::<crate::model::ConfigV, ErrorV>(final(cfg)@)
                        && msgs.deep_view() == Seq::<TransferInstructionV>::empty(),
                    Err(e) => final(cfg)@ == old(cfg)@ && spec_r == Err::<
                        crate::model::ConfigV,
                        ErrorV,
                    >(e@),
                }
            },
        },
{
    match msg {
        ExecuteMsg::AddPaymentChan { chan_key, channels, operator } => {
            let op = match operator {
                Some(o) => o,
                None => caller,
            };
            match build_payment_chan(ledger, cfg, asset_received, chan_key, channels, op) {
                Ok(_) => {
                    let msgs: Vec<TransferInstruction> = Vec::new();
                    proof {
                        assert(msgs.deep_view() =~= Seq::<TransferInstructionV>::empty());
                    }
                    Ok(msgs)
                },
                Err(e) => Err(e),
            }
        },
        ExecuteMsg::ClosePaymentChan { chan_key, channels } => {
            close_payment(ledger, cfg, caller, now, chan_key, channels)
        },
        ExecuteMsg::AddSigner { chan_key, recipient_key, signers } => {
            match add_signer(ledger, caller, chan_key, recipient_key, signers) {
                Ok(_) => {
                    let msgs: Vec<TransferInstruction> = Vec::new();
                    proof {
                        assert(msgs.deep_view() =~= Seq::<TransferInstructionV>::empty());
                    }
                    Ok(msgs)
                },
                Err(e) => Err(e),
            }
        },
        ExecuteMsg::Cashing { recipient_key, cheques, verdicts } => {
            cashing(ledger, cfg, caller, recipient_key, cheques, verdicts)
        },
        ExecuteMsg::UpdateConfig { owner, auto_release_time, max_recipient } => {
            match update_config(cfg, caller, auto_release_time, owner, max_recipient) {
                Ok(_) => {
                    let msgs: Vec<TransferInstruction> = Vec::new();
                    proof {
                        assert(msgs.deep_view() =~= Seq::<TransferInstructionV>::empty());
                    }
                    Ok(msgs)
                },
                Err(e) => Err(e),
            }
        },
    }
}

/// Answer one read-only query.
pub fn query(ledger: &PaymentLedger, cfg: &Config, msg: QueryMsg) -> (r: Result<
    QueryAnswer,
    ContractError,
>)
    ensures
        match msg {
            QueryMsg::PaymentChan { sender_pubkey_hash, recipient_pubkey_hash, page, size } => {
                let spec_r = payment_chan_spec(
                    ledger@,
                    sender_pubkey_hash@,
                    recipient_pubkey_hash.deep_view(),
                    page,
                    size,
                );
                match r {
                    Ok(a) => {
                        &&& spec_r is Ok
                        &&& a matches QueryAnswer::PaymentChan(o)
                        &&& o is Some
                        &&& o->0.deep_view() == spec_r->Ok_0
                    },
                    Err(e) => spec_r == Err::<Seq<RecipientV>, ErrorV>(e@),
                }
            },
            QueryMsg::Config {  } => r is Ok && (r->Ok_0 matches QueryAnswer::Config(c) && c@
                == cfg@),
        },
{
    match msg {
        QueryMsg::PaymentChan { sender_pubkey_hash, recipient_pubkey_hash, page, size } => {
            match payment_chan(ledger, sender_pubkey_hash, recipient_pubkey_hash, page, size) {
                Ok(o) => Ok(QueryAnswer::PaymentChan(o)),
                Err(e) => Err(e),
            }
        },
        QueryMsg::Config {  } => Ok(QueryAnswer::Config(config(cfg))),
    }
}

/// Turn a computed amount into the one transfer instruction that pays it
/// in the configured asset.
pub fn build_transfer_msg(cfg: &Config, to: String, amt: u128) -> (r: Vec<TransferInstruction>)
    ensures
        r.deep_view() == seq![transfer_of(cfg@.denom, to@, amt)],
{
    let mut res: Vec<TransferInstruction> = Vec::new();
    match &cfg.denom {
        Denom::Native(denom) => {
            res.push(TransferInstruction::Native {
                denom: denom.clone(),
                to_address: to,
                amount: amt,
            });
        },
        Denom::Cw20(addr) => {
            res.push(TransferInstruction::Cw20 {
                contract_addr: addr.clone(),
                recipient: to,
                amount: amt,
            });
        },
    }
    proof {
        assert(res.deep_view() =~= seq![transfer_of(cfg@.denom, to@, amt)]);
    }
    res
}

} // verus!
