//! The mathematical model of the ledger.
//!
//! Channels and recipient slots are modeled as association sequences:
//! sequences of `(key, value)` pairs with pairwise-distinct keys.  The
//! executable types in `state` view into these, and every operation's
//! contract is stated over the transition functions defined here.

use vstd::prelude::*;

use crate::error::ErrorV;

verus! {

/// Model of one recipient slot within a channel.
pub struct RecipientV {
    /// Cumulative escrow ceiling ever deposited for this recipient.
    pub max_amount: u128,
    /// Highest sequence number already redeemed; `None` before the first cash.
    pub withdrawl_seq: Option<u64>,
    /// Fixed value paid per unit of sequence advance, when set.
    pub face_value: Option<u128>,
    /// When set, the time at which a unilateral close becomes finalizable.
    pub auto_release: Option<u64>,
    /// Identities additionally authorized to co-sign claims.
    pub approve_signers: Seq<Seq<char>>,
}

/// Model of one channel: its operator and its recipient slots.
pub struct ChannelV {
    pub operator: Seq<char>,
    pub recipients: Seq<(Seq<char>, RecipientV)>,
}

/// The asset kind a deployment settles in.
pub enum DenomV {
    Native(Seq<char>),
    Cw20(Seq<char>),
}

/// Model of the deployment configuration.
pub struct ConfigV {
    pub denom: DenomV,
    pub auto_release_time: u64,
    pub owner: Seq<char>,
    pub max_recipient: u32,
}

/// Model of one recipient claim inside an open-or-top-up batch.
pub struct ClaimV {
    pub key: Seq<char>,
    pub max_amount: u128,
    pub face_value: Option<u128>,
    pub approve_signers: Seq<Seq<char>>,
}

/// Model of one cheque presented for cashing.
pub struct ChequeV {
    pub sender_key: Seq<char>,
    pub sender_commitment: Seq<u8>,
    pub recipient_key: Seq<char>,
    pub recipient_commitment: Seq<u8>,
    pub value: Option<u128>,
    pub nonce: u64,
}

/// The whole ledger: channels keyed by the sender's channel key.
pub type LedgerV = Seq<(Seq<char>, ChannelV)>;

/// Model of a settlement instruction.
pub enum TransferInstructionV {
    Native { denom: Seq<char>, to_address: Seq<char>, amount: u128 },
    Cw20 { contract_addr: Seq<char>, recipient: Seq<char>, amount: u128 },
}

/// The one instruction that pays `amount` to `to` in the configured asset.
pub open spec fn transfer_of(denom: DenomV, to: Seq<char>, amount: u128) -> TransferInstructionV {
    match denom {
        DenomV::Native(d) => TransferInstructionV::Native {
            denom: d,
            to_address: to,
            amount: amount,
        },
        DenomV::Cw20(a) => TransferInstructionV::Cw20 {
            contract_addr: a,
            recipient: to,
            amount: amount,
        },
    }
}

// ---------------------------------------------------------------------------
// Association sequences
// ---------------------------------------------------------------------------

/// Whether some entry carries key `k`.
pub open spec fn has_key<T>(s: Seq<(Seq<char>, T)>, k: Seq<char>) -> bool {
    exists|i: int| 0 <= i < s.len() && s[i].0 == k
}

/// All keys pairwise distinct.
pub open spec fn distinct_keys<T>(s: Seq<(Seq<char>, T)>) -> bool {
    forall|i: int, j: int| 0 <= i < j < s.len() ==> s[i].0 != s[j].0
}

/// The value stored under `k`, scanning from the front.
pub open spec fn lookup<T>(s: Seq<(Seq<char>, T)>, k: Seq<char>) -> Option<T>
    decreases s.len(),
{
    if s.len() == 0 {
        None
    } else if s[0].0 == k {
        Some(s[0].1)
    } else {
        lookup(s.drop_first(), k)
    }
}

/// `s` with the value under `k` replaced by `v`; unchanged when `k` is absent.
pub open spec fn set_key<T>(s: Seq<(Seq<char>, T)>, k: Seq<char>, v: T) -> Seq<(Seq<char>, T)>
    decreases s.len(),
{
    if s.len() == 0 {
        s
    } else if s[0].0 == k {
        seq![(k, v)] + s.drop_first()
    } else {
        seq![s[0]] + set_key(s.drop_first(), k, v)
    }
}

/// `s` without the entry under `k`; unchanged when `k` is absent.
pub open spec fn remove_key<T>(s: Seq<(Seq<char>, T)>, k: Seq<char>) -> Seq<(Seq<char>, T)>
    decreases s.len(),
{
    if s.len() == 0 {
        s
    } else if s[0].0 == k {
        s.drop_first()
    } else {
        seq![s[0]] + remove_key(s.drop_first(), k)
    }
}

/// Update under `k` when present, append a new entry otherwise.
pub open spec fn store<T>(s: Seq<(Seq<char>, T)>, k: Seq<char>, v: T) -> Seq<(Seq<char>, T)> {
    if has_key(s, k) {
        set_key(s, k, v)
    } else {
        s.push((k, v))
    }
}

// ---------------------------------------------------------------------------
// Association-sequence lemmas
// ---------------------------------------------------------------------------

/// A key found at its first occurrence is what `lookup` returns.
pub proof fn lemma_lookup_at<T>(s: Seq<(Seq<char>, T)>, i: int, k: Seq<char>)
    requires
        0 <= i < s.len(),
        s[i].0 == k,
        forall|j: int| 0 <= j < i ==> s[j].0 != k,
    ensures
        lookup(s, k) == Some(s[i].1),
    decreases i,
{
    if i > 0 {
        lemma_lookup_at(s.drop_first(), i - 1, k);
    }
}

/// A key under which no entry stands is not found.
pub proof fn lemma_lookup_absent<T>(s: Seq<(Seq<char>, T)>, k: Seq<char>)
    requires
        forall|i: int| 0 <= i < s.len() ==> s[i].0 != k,
    ensures
        lookup(s, k) is None,
    decreases s.len(),
{
    if s.len() > 0 {
        lemma_lookup_absent(s.drop_first(), k);
    }
}

/// `lookup` succeeds exactly on the keys that occur.
pub proof fn lemma_lookup_has_key<T>(s: Seq<(Seq<char>, T)>, k: Seq<char>)
    ensures
        has_key(s, k) <==> lookup(s, k) is Some,
    decreases s.len(),
{
    if s.len() > 0 && s[0].0 != k {
        lemma_lookup_has_key(s.drop_first(), k);
        assert(has_key(s.drop_first(), k) ==> has_key(s, k)) by {
            if has_key(s.drop_first(), k) {
                let i = choose|i: int|
                    0 <= i < s.drop_first().len() && s.drop_first()[i].0 == k;
                assert(s[i + 1].0 == k);
            }
        }
        if has_key(s, k) {
            let i = choose|i: int| 0 <= i < s.len() && s[i].0 == k;
            assert(s.drop_first()[i - 1].0 == k);
        }
    }
}

/// Replacing the value under a key's first occurrence is a point update.
pub proof fn lemma_set_key_update<T>(s: Seq<(Seq<char>, T)>, i: int, k: Seq<char>, v: T)
    requires
        0 <= i < s.len(),
        s[i].0 == k,
        forall|j: int| 0 <= j < i ==> s[j].0 != k,
    ensures
        set_key(s, k, v) == s.update(i, (k, v)),
    decreases i,
{
    if i == 0 {
        assert(set_key(s, k, v) =~= s.update(0, (k, v)));
    } else {
        lemma_set_key_update(s.drop_first(), i - 1, k, v);
        assert(seq![s[0]] + s.drop_first().update(i - 1, (k, v)) =~= s.update(i, (k, v)));
    }
}

/// Removing the entry under a key's first occurrence is a point removal.
pub proof fn lemma_remove_key_at<T>(s: Seq<(Seq<char>, T)>, i: int, k: Seq<char>)
    requires
        0 <= i < s.len(),
        s[i].0 == k,
        forall|j: int| 0 <= j < i ==> s[j].0 != k,
    ensures
        remove_key(s, k) == s.remove(i),
    decreases i,
{
    if i == 0 {
        assert(remove_key(s, k) =~= s.remove(0));
    } else {
        lemma_remove_key_at(s.drop_first(), i - 1, k);
        assert(seq![s[0]] + s.drop_first().remove(i - 1) =~= s.remove(i));
    }
}

/// What `lookup` sees after a `set_key`: the stored value under the written
/// key when it occurs, and the old answer under every other key.
pub proof fn lemma_lookup_set_key<T>(s: Seq<(Seq<char>, T)>, k: Seq<char>, v: T, k2: Seq<char>)
    ensures
        lookup(set_key(s, k, v), k2) == (if k2 == k && has_key(s, k) {
            Some(v)
        } else {
            lookup(s, k2)
        }),
    decreases s.len(),
{
    if s.len() > 0 {
        if s[0].0 == k {
            let t = seq![(k, v)] + s.drop_first();
            assert(set_key(s, k, v) == t);
            assert(t[0] == (k, v));
            assert(t.drop_first() =~= s.drop_first());
            assert(has_key(s, k));
            if k2 != k {
                assert(lookup(t, k2) == lookup(s.drop_first(), k2));
                assert(lookup(s, k2) == lookup(s.drop_first(), k2));
            }
        } else {
            lemma_lookup_set_key(s.drop_first(), k, v, k2);
            if has_key(s, k) {
                let i = choose|i: int| 0 <= i < s.len() && s[i].0 == k;
                assert(s.drop_first()[i - 1].0 == k);
                assert(has_key(s.drop_first(), k));
            }
            if has_key(s.drop_first(), k) {
                let i = choose|i: int|
                    0 <= i < s.drop_first().len() && s.drop_first()[i].0 == k;
                assert(s[i + 1].0 == k);
                assert(has_key(s, k));
            }
            let t = seq![s[0]] + set_key(s.drop_first(), k, v);
            assert(set_key(s, k, v) == t);
            assert(t[0] == s[0]);
            assert(t.drop_first() =~= set_key(s.drop_first(), k, v));
            if s[0].0 == k2 {
                assert(lookup(t, k2) == Some(s[0].1));
                assert(lookup(s, k2) == Some(s[0].1));
            } else {
                assert(lookup(t, k2) == lookup(set_key(s.drop_first(), k, v), k2));
                assert(lookup(s, k2) == lookup(s.drop_first(), k2));
            }
        }
    }
}

/// What `lookup` sees after a `remove_key` on distinct keys: nothing under
/// the removed key, the old answer under every other key.
pub proof fn lemma_lookup_remove_key<T>(s: Seq<(Seq<char>, T)>, k: Seq<char>, k2: Seq<char>)
    requires
        distinct_keys(s),
    ensures
        lookup(remove_key(s, k), k2) == (if k2 == k {
            None::<T>
        } else {
            lookup(s, k2)
        }),
    decreases s.len(),
{
    if s.len() > 0 {
        assert forall|i: int, j: int|
            0 <= i < j < s.drop_first().len() implies #[trigger] s.drop_first()[i].0
            != #[trigger] s.drop_first()[j].0 by {
            assert(s.drop_first()[i] == s[i + 1]);
            assert(s.drop_first()[j] == s[j + 1]);
        }
        if s[0].0 == k {
            if k2 == k {
                lemma_lookup_absent(s.drop_first(), k);
            }
        } else {
            lemma_lookup_remove_key(s.drop_first(), k, k2);
            let t = seq![s[0]] + remove_key(s.drop_first(), k);
            assert(t.drop_first() =~= remove_key(s.drop_first(), k));
        }
    }
}

/// What `lookup` sees after appending a fresh entry.
pub proof fn lemma_lookup_push<T>(s: Seq<(Seq<char>, T)>, k: Seq<char>, v: T, k2: Seq<char>)
    requires
        !has_key(s, k),
    ensures
        lookup(s.push((k, v)), k2) == (if k2 == k {
            Some(v)
        } else {
            lookup(s, k2)
        }),
    decreases s.len(),
{
    if s.len() == 0 {
        let t = s.push((k, v));
        assert(t[0] == (k, v));
        assert(t.drop_first() =~= Seq::<(Seq<char>, T)>::empty());
        if k2 != k {
            assert(lookup(t, k2) == lookup(t.drop_first(), k2));
            assert(lookup(t.drop_first(), k2) is None);
            assert(lookup(s, k2) is None);
        }
    } else {
        assert(!has_key(s.drop_first(), k)) by {
            if has_key(s.drop_first(), k) {
                let i = choose|i: int|
                    0 <= i < s.drop_first().len() && s.drop_first()[i].0 == k;
                assert(s[i + 1].0 == k);
            }
        }
        lemma_lookup_push(s.drop_first(), k, v, k2);
        let t = s.push((k, v));
        assert(t[0] == s[0]);
        assert(t.drop_first() =~= s.drop_first().push((k, v)));
        assert(s[0].0 != k);
        if s[0].0 == k2 {
            assert(lookup(t, k2) == Some(s[0].1));
            assert(lookup(s, k2) == Some(s[0].1));
        } else {
            assert(lookup(t, k2) == lookup(s.drop_first().push((k, v)), k2));
            assert(lookup(s, k2) == lookup(s.drop_first(), k2));
        }
    }
}

// ---------------------------------------------------------------------------
// Sum lemmas
// ---------------------------------------------------------------------------

/// A point update shifts the ceiling sum by the difference at that point.
pub proof fn lemma_sum_max_update(
    s: Seq<(Seq<char>, RecipientV)>,
    i: int,
    p: (Seq<char>, RecipientV),
)
    requires
        0 <= i < s.len(),
    ensures
        sum_max(s.update(i, p)) == sum_max(s) - s[i].1.max_amount + p.1.max_amount,
    decreases i,
{
    if i == 0 {
        assert(s.update(0, p).drop_first() =~= s.drop_first());
    } else {
        lemma_sum_max_update(s.drop_first(), i - 1, p);
        assert(s.update(i, p).drop_first() =~= s.drop_first().update(i - 1, p));
    }
}

/// Appending an entry adds its ceiling to the sum.
pub proof fn lemma_sum_max_push(s: Seq<(Seq<char>, RecipientV)>, p: (Seq<char>, RecipientV))
    ensures
        sum_max(s.push(p)) == sum_max(s) + p.1.max_amount,
    decreases s.len(),
{
    if s.len() == 0 {
        assert(s.push(p)[0] == p);
        assert(s.push(p).drop_first() =~= Seq::<(Seq<char>, RecipientV)>::empty());
        assert(sum_max(s.push(p).drop_first()) == 0);
    } else {
        lemma_sum_max_push(s.drop_first(), p);
        assert(s.push(p)[0] == s[0]);
        assert(s.push(p).drop_first() =~= s.drop_first().push(p));
        assert(sum_max(s.push(p)) == s[0].1.max_amount + sum_max(s.drop_first().push(p)));
        assert(sum_max(s) == s[0].1.max_amount + sum_max(s.drop_first()));
    }
}

// ---------------------------------------------------------------------------
// Slot arithmetic and well-formedness
// ---------------------------------------------------------------------------

impl RecipientV {
    /// Value already redeemed: sequence consumed times face value, both
    /// taken as zero while unset.
    pub open spec fn consumed(self) -> int {
        (match self.withdrawl_seq {
            Some(s) => s as int,
            None => 0,
        }) * (match self.face_value {
            Some(f) => f as int,
            None => 0,
        })
    }

    /// Escrow still unredeemed in this slot.
    pub open spec fn remain(self) -> int {
        self.max_amount - self.consumed()
    }

    /// No over-withdrawal: the redeemed value never exceeds the ceiling.
    pub open spec fn wf(self) -> bool {
        self.consumed() <= self.max_amount
    }
}

impl ChannelV {
    pub open spec fn wf(self) -> bool {
        &&& distinct_keys(self.recipients)
        &&& forall|i: int|
            0 <= i < self.recipients.len() ==> (#[trigger] self.recipients[i]).1.wf()
    }
}

/// Distinct channel keys, every channel well-formed.
pub open spec fn ledger_wf(l: LedgerV) -> bool {
    &&& distinct_keys(l)
    &&& forall|i: int| 0 <= i < l.len() ==> (#[trigger] l[i]).1.wf()
}

/// Sum of the escrow ceilings across a channel's recipient slots.
pub open spec fn sum_max(s: Seq<(Seq<char>, RecipientV)>) -> int
    decreases s.len(),
{
    if s.len() == 0 {
        0
    } else {
        s[0].1.max_amount + sum_max(s.drop_first())
    }
}

/// Sum of the escrow amounts a claim batch asks for.
pub open spec fn claims_total(claims: Seq<ClaimV>) -> int
    decreases claims.len(),
{
    if claims.len() == 0 {
        0
    } else {
        claims[0].max_amount + claims_total(claims.drop_first())
    }
}

/// The batch total never goes negative.
pub proof fn lemma_claims_total_nonneg(claims: Seq<ClaimV>)
    ensures
        claims_total(claims) >= 0,
    decreases claims.len(),
{
    if claims.len() > 0 {
        lemma_claims_total_nonneg(claims.drop_first());
    }
}

/// One step of the batch total, walking the batch from the front.
pub proof fn lemma_claims_total_skip_step(claims: Seq<ClaimV>, i: int)
    requires
        0 <= i < claims.len(),
    ensures
        claims_total(claims.skip(i)) == claims[i].max_amount + claims_total(claims.skip(i + 1)),
{
    assert(claims.skip(i)[0] == claims[i]);
    assert(claims.skip(i).drop_first() =~= claims.skip(i + 1));
}

// ---------------------------------------------------------------------------
// Transitions
// ---------------------------------------------------------------------------

/// The slot a fresh claim opens: nothing redeemed, no close requested.
pub open spec fn new_recipient_v(c: ClaimV) -> RecipientV {
    RecipientV {
        max_amount: c.max_amount,
        withdrawl_seq: None,
        face_value: c.face_value,
        auto_release: None,
        approve_signers: c.approve_signers,
    }
}

/// Fold an open-or-top-up batch over the recipient slots, claim by claim.
/// An existing slot has its ceiling raised by checked addition; a fresh slot
/// is appended unless it would push past `max_recipient`.
pub open spec fn apply_claims(
    rs: Seq<(Seq<char>, RecipientV)>,
    claims: Seq<ClaimV>,
    max_recipient: u32,
) -> Result<Seq<(Seq<char>, RecipientV)>, ErrorV>
    decreases claims.len(),
{
    if claims.len() == 0 {
        Ok(rs)
    } else {
        let c = claims[0];
        match lookup(rs, c.key) {
            Some(r) => {
                if r.max_amount + c.max_amount > u128::MAX {
                    Err(ErrorV::ArithmeticOverflow)
                } else {
                    let topped = RecipientV {
                        max_amount: (r.max_amount + c.max_amount) as u128,
                        ..r
                    };
                    apply_claims(set_key(rs, c.key, topped), claims.drop_first(), max_recipient)
                }
            },
            None => {
                if rs.len() + 1 > max_recipient {
                    Err(ErrorV::ExceedRecipientNum)
                } else {
                    apply_claims(
                        rs.push((c.key, new_recipient_v(c))),
                        claims.drop_first(),
                        max_recipient,
                    )
                }
            },
        }
    }
}

/// Open a channel or top up an existing one.  The deposit received must
/// cover the batch total; an existing channel must name the same operator.
pub open spec fn open_spec(
    led: LedgerV,
    chan_key: Seq<char>,
    operator: Seq<char>,
    claims: Seq<ClaimV>,
    amount_received: u128,
    max_recipient: u32,
) -> Result<LedgerV, ErrorV> {
    if claims_total(claims) > u128::MAX {
        Err(ErrorV::ArithmeticOverflow)
    } else if (amount_received as int) < claims_total(claims) {
        Err(ErrorV::InsufficientFund)
    } else {
        let chan = match lookup(led, chan_key) {
            Some(c) => c,
            None => ChannelV { operator: operator, recipients: Seq::empty() },
        };
        if chan.operator != operator {
            Err(ErrorV::NotOperator)
        } else {
            match apply_claims(chan.recipients, claims, max_recipient) {
                Ok(rs) => Ok(
                    store(led, chan_key, ChannelV { operator: chan.operator, recipients: rs }),
                ),
                Err(e) => Err(e),
            }
        }
    }
}

/// Redeem one cheque: the channel and slot must exist, the sequence number
/// must strictly advance, and the new cumulative value must stay within the
/// ceiling.  Returns the updated ledger and the amount payable.
pub open spec fn cash_one(
    led: LedgerV,
    recipient_key: Seq<char>,
    cheque: ChequeV,
) -> Result<(LedgerV, u128), ErrorV> {
    match lookup(led, cheque.sender_key) {
        None => Err(ErrorV::UnknownChannel),
        Some(chan) => match lookup(chan.recipients, recipient_key) {
            None => Err(ErrorV::UnknownRecipient),
            Some(r) => {
                let prev = match r.withdrawl_seq {
                    Some(s) => s as int,
                    None => 0,
                };
                let face = match r.face_value {
                    Some(f) => f as int,
                    None => 0,
                };
                if cheque.nonce <= prev {
                    Err(ErrorV::StaleOrReplayedSequence)
                } else if cheque.nonce * face > u128::MAX {
                    Err(ErrorV::ArithmeticOverflow)
                } else if cheque.nonce * face > r.max_amount {
                    Err(ErrorV::ArithmeticOverflow)
                } else {
                    let redeemed = RecipientV { withdrawl_seq: Some(cheque.nonce), ..r };
                    let chan2 = ChannelV {
                        operator: chan.operator,
                        recipients: set_key(chan.recipients, recipient_key, redeemed),
                    };
                    Ok(
                        (
                            set_key(led, cheque.sender_key, chan2),
                            ((cheque.nonce - prev) * face) as u128,
                        ),
                    )
                }
            },
        },
    }
}

/// Redeem a batch of cheques left to right, accumulating the payable total
/// by checked addition.  The first failure aborts the whole batch.
pub open spec fn cash_all(
    led: LedgerV,
    recipient_key: Seq<char>,
    cheques: Seq<ChequeV>,
    acc: u128,
) -> Result<(LedgerV, u128), ErrorV>
    decreases cheques.len(),
{
    if cheques.len() == 0 {
        Ok((led, acc))
    } else {
        match cash_one(led, recipient_key, cheques[0]) {
            Err(e) => Err(e),
            Ok((led2, pay)) => {
                if acc + pay > u128::MAX {
                    Err(ErrorV::ArithmeticOverflow)
                } else {
                    cash_all(led2, recipient_key, cheques.drop_first(), (acc + pay) as u128)
                }
            },
        }
    }
}

/// A whole cashing call: every cheque's commitment must have been accepted
/// by the verifier, then the batch is redeemed as one unit.
pub open spec fn cashing_spec(
    led: LedgerV,
    recipient_key: Seq<char>,
    cheques: Seq<ChequeV>,
    verdicts: Seq<bool>,
) -> Result<(LedgerV, u128), ErrorV> {
    if exists|i: int| 0 <= i < verdicts.len() && !verdicts[i] {
        Err(ErrorV::ChecksVerifyFailed)
    } else {
        cash_all(led, recipient_key, cheques, 0)
    }
}

/// Close one recipient slot.  An absent key is skipped.  A slot whose close
/// commitment the verifier accepted settles at once.  Otherwise the first
/// unilateral close opens the dispute window, a close after the window
/// settles, and a close during the window changes nothing.
pub open spec fn close_fold(
    rs: Seq<(Seq<char>, RecipientV)>,
    closures: Seq<(Seq<char>, bool)>,
    window: u64,
    now: u64,
    acc: u128,
) -> Result<(Seq<(Seq<char>, RecipientV)>, u128), ErrorV>
    decreases closures.len(),
{
    if closures.len() == 0 {
        Ok((rs, acc))
    } else {
        let k = closures[0].0;
        let accepted = closures[0].1;
        let rest = closures.drop_first();
        match lookup(rs, k) {
            None => close_fold(rs, rest, window, now, acc),
            Some(r) => {
                if accepted {
                    if acc + r.remain() > u128::MAX {
                        Err(ErrorV::ArithmeticOverflow)
                    } else {
                        close_fold(
                            remove_key(rs, k),
                            rest,
                            window,
                            now,
                            (acc + r.remain()) as u128,
                        )
                    }
                } else {
                    match r.auto_release {
                        Some(release_at) => {
                            if now >= release_at {
                                if acc + r.remain() > u128::MAX {
                                    Err(ErrorV::ArithmeticOverflow)
                                } else {
                                    close_fold(
                                        remove_key(rs, k),
                                        rest,
                                        window,
                                        now,
                                        (acc + r.remain()) as u128,
                                    )
                                }
                            } else {
                                close_fold(rs, rest, window, now, acc)
                            }
                        },
                        None => {
                            if now + window > u64::MAX {
                                Err(ErrorV::ArithmeticOverflow)
                            } else {
                                let requested = RecipientV {
                                    auto_release: Some((now + window) as u64),
                                    ..r
                                };
                                close_fold(set_key(rs, k, requested), rest, window, now, acc)
                            }
                        },
                    }
                }
            },
        }
    }
}

/// A whole close call: only the channel's operator may drive it; the
/// accumulated refund is owed to the operator.
pub open spec fn close_spec(
    led: LedgerV,
    caller: Seq<char>,
    now: u64,
    window: u64,
    chan_key: Seq<char>,
    closures: Seq<(Seq<char>, bool)>,
) -> Result<(LedgerV, u128), ErrorV> {
    match lookup(led, chan_key) {
        None => Err(ErrorV::UnknownChannel),
        Some(chan) => {
            if chan.operator != caller {
                Err(ErrorV::NotOperator)
            } else {
                match close_fold(chan.recipients, closures, window, now, 0) {
                    Err(e) => Err(e),
                    Ok((rs, refund)) => Ok(
                        (
                            set_key(
                                led,
                                chan_key,
                                ChannelV { operator: chan.operator, recipients: rs },
                            ),
                            refund,
                        ),
                    ),
                }
            }
        },
    }
}

/// Only a caller equal to the configured owner may administer; the fields
/// provided replace the stored ones, the rest stay.
pub open spec fn update_config_spec(
    c: ConfigV,
    caller: Seq<char>,
    auto_release_time: Option<u64>,
    owner: Option<Seq<char>>,
    max_recipient: Option<u32>,
) -> Result<ConfigV, ErrorV> {
    if caller != c.owner {
        Err(ErrorV::NotOwner { sender: caller, owner: c.owner })
    } else {
        Ok(
            ConfigV {
                denom: c.denom,
                auto_release_time: match auto_release_time {
                    Some(t) => t,
                    None => c.auto_release_time,
                },
                owner: match owner {
                    Some(o) => o,
                    None => c.owner,
                },
                max_recipient: match max_recipient {
                    Some(m) => m,
                    None => c.max_recipient,
                },
            },
        )
    }
}

/// A deposit received through the token contract is accepted only when the
/// deployment settles in that contract's tokens.
pub open spec fn cw20_source_ok(denom: DenomV, token_contract: Seq<char>) -> bool {
    match denom {
        DenomV::Native(_) => false,
        DenomV::Cw20(addr) => addr == token_contract,
    }
}

/// The recipient listing a channel query answers with: one slot when a
/// recipient key is given, else the page `[start, start + size)` of the
/// slots in insertion order.
pub open spec fn payment_chan_spec(
    led: LedgerV,
    chan_key: Seq<char>,
    recipient_key: Option<Seq<char>>,
    page: Option<u32>,
    size: Option<u32>,
) -> Result<Seq<RecipientV>, ErrorV> {
    match lookup(led, chan_key) {
        None => Err(ErrorV::UnknownChannel),
        Some(chan) => Ok(
            match recipient_key {
                Some(k) => match lookup(chan.recipients, k) {
                    Some(r) => seq![r],
                    None => Seq::empty(),
                },
                None => {
                    let sz = match size {
                        Some(s) => s as int,
                        None => 10,
                    };
                    let start = (match page {
                        Some(p) => p as int,
                        None => 0,
                    }) * sz;
                    let n = chan.recipients.len() as int;
                    let lo = if start < n {
                        start
                    } else {
                        n
                    };
                    let hi = if start + sz < n {
                        start + sz
                    } else {
                        n
                    };
                    chan.recipients.subrange(lo, hi).map_values(|p: (Seq<char>, RecipientV)| p.1)
                },
            },
        ),
    }
}

/// Append signers to a slot's authorized co-signer list; only the operator
/// may do so, and both the channel and the slot must exist.
pub open spec fn add_signer_spec(
    led: LedgerV,
    caller: Seq<char>,
    chan_key: Seq<char>,
    recipient_key: Seq<char>,
    signers: Seq<Seq<char>>,
) -> Result<LedgerV, ErrorV> {
    match lookup(led, chan_key) {
        None => Err(ErrorV::UnknownChannel),
        Some(chan) => {
            if chan.operator != caller {
                Err(ErrorV::NotOperator)
            } else {
                match lookup(chan.recipients, recipient_key) {
                    None => Err(ErrorV::UnknownRecipient),
                    Some(r) => {
                        let extended = RecipientV {
                            approve_signers: r.approve_signers + signers,
                            ..r
                        };
                        Ok(
                            set_key(
                                led,
                                chan_key,
                                ChannelV {
                                    operator: chan.operator,
                                    recipients: set_key(chan.recipients, recipient_key, extended),
                                },
                            ),
                        )
                    },
                }
            }
        },
    }
}

} // verus!

