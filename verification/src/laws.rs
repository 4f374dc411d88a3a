//! Laws of the settlement engine, proved over the model's transitions.

use vstd::prelude::*;

use crate::error::ErrorV;
use crate::model::{
    apply_claims, cash_one, claims_total, close_fold, close_spec, distinct_keys, has_key,
    ledger_wf, lemma_claims_total_nonneg, lemma_lookup_has_key, lemma_lookup_push,
    lemma_lookup_remove_key, lemma_lookup_set_key, lemma_remove_key_at, lemma_set_key_update,
    lemma_sum_max_push, lemma_sum_max_update, lookup, new_recipient_v, open_spec, remove_key,
    set_key, sum_max, ChannelV, ChequeV, ClaimV, LedgerV, RecipientV,
};

verus! {

/// `lookup` finds the first occurrence of its key.
pub proof fn lemma_lookup_first_index<T>(s: Seq<(Seq<char>, T)>, k: Seq<char>)
    requires
        lookup(s, k) is Some,
    ensures
        exists|i: int|
            {
                &&& 0 <= i < s.len()
                &&& (#[trigger] s[i]).0 == k
                &&& s[i].1 == lookup(s, k)->Some_0
                &&& forall|j: int| 0 <= j < i ==> s[j].0 != k
            },
    decreases s.len(),
{
    if s.len() > 0 {
        if s[0].0 == k {
            assert(0 <= 0 < s.len() && s[0].0 == k && s[0].1 == lookup(s, k)->Some_0 && forall|
                j: int,
            | 0 <= j < 0 ==> s[j].0 != k);
        } else {
            lemma_lookup_first_index(s.drop_first(), k);
            let i = choose|i: int|
                {
                    &&& 0 <= i < s.drop_first().len()
                    &&& (#[trigger] s.drop_first()[i]).0 == k
                    &&& s.drop_first()[i].1 == lookup(s.drop_first(), k)->Some_0
                    &&& forall|j: int| 0 <= j < i ==> s.drop_first()[j].0 != k
                };
            assert(s[i + 1] == s.drop_first()[i]);
            assert forall|j: int| 0 <= j < i + 1 implies s[j].0 != k by {
                if j > 0 {
                    assert(s.drop_first()[j - 1] == s[j]);
                }
            }
        }
    }
}

/// Writing back under an occurring key keeps the keys and the length, and
/// a point update with an equal value changes nothing.
pub proof fn lemma_set_key_same<T>(s: Seq<(Seq<char>, T)>, k: Seq<char>)
    requires
        lookup(s, k) is Some,
    ensures
        set_key(s, k, lookup(s, k)->Some_0) == s,
{
    lemma_lookup_first_index(s, k);
    let i = choose|i: int|
        {
            &&& 0 <= i < s.len()
            &&& (#[trigger] s[i]).0 == k
            &&& s[i].1 == lookup(s, k)->Some_0
            &&& forall|j: int| 0 <= j < i ==> s[j].0 != k
        };
    lemma_set_key_update(s, i, k, lookup(s, k)->Some_0);
    assert(s.update(i, (k, lookup(s, k)->Some_0)) =~= s);
}

// ---------------------------------------------------------------------------
// Preservation of the balance invariant
// ---------------------------------------------------------------------------

/// A claim batch keeps the slots well formed: topping a ceiling up can
/// only widen the room above what was redeemed, and a fresh slot has
/// nothing redeemed yet.
pub proof fn lemma_apply_claims_wf(rs: Seq<(Seq<char>, RecipientV)>, claims: Seq<ClaimV>, maxr: u32)
    requires
        distinct_keys(rs),
        forall|i: int| 0 <= i < rs.len() ==> (#[trigger] rs[i]).1.wf(),
        apply_claims(rs, claims, maxr) is Ok,
    ensures
        ({
            let rs2 = apply_claims(rs, claims, maxr)->Ok_0;
            &&& distinct_keys(rs2)
            &&& forall|i: int| 0 <= i < rs2.len() ==> (#[trigger] rs2[i]).1.wf()
        }),
    decreases claims.len(),
{
    if claims.len() > 0 {
        let c = claims[0];
        match lookup(rs, c.key) {
            Some(r) => {
                let topped = RecipientV { max_amount: (r.max_amount + c.max_amount) as u128, ..r };
                lemma_lookup_first_index(rs, c.key);
                let i = choose|i: int|
                    {
                        &&& 0 <= i < rs.len()
                        &&& (#[trigger] rs[i]).0 == c.key
                        &&& rs[i].1 == r
                        &&& forall|j: int| 0 <= j < i ==> rs[j].0 != c.key
                    };
                lemma_set_key_update(rs, i, c.key, topped);
                let rs1 = rs.update(i, (c.key, topped));
                assert(distinct_keys(rs1)) by {
                    assert(forall|m: int| 0 <= m < rs1.len() ==> (#[trigger] rs1[m]).0 == rs[m].0);
                }
                assert(forall|m: int| 0 <= m < rs1.len() ==> (#[trigger] rs1[m]).1.wf());
                lemma_apply_claims_wf(rs1, claims.drop_first(), maxr);
            },
            None => {
                lemma_lookup_has_key(rs, c.key);
                let rs1 = rs.push((c.key, new_recipient_v(c)));
                assert(distinct_keys(rs1)) by {
                    assert forall|m: int, l: int| 0 <= m < l < rs1.len() implies rs1[m].0
                        != rs1[l].0 by {
                        if l < rs.len() {
                            assert(rs1[m] == rs[m] && rs1[l] == rs[l]);
                        } else {
                            assert(rs1[l] == (c.key, new_recipient_v(c)));
                            assert(rs1[m] == rs[m]);
                            assert(!has_key(rs, c.key));
                        }
                    }
                }
                assert(new_recipient_v(c).wf());
                assert(forall|m: int| 0 <= m < rs1.len() ==> (#[trigger] rs1[m]).1.wf());
                lemma_apply_claims_wf(rs1, claims.drop_first(), maxr);
            },
        }
    }
}

/// An accepted open-or-top-up call keeps the whole ledger well formed.
pub proof fn lemma_open_wf(
    led: LedgerV,
    chan_key: Seq<char>,
    operator: Seq<char>,
    claims: Seq<ClaimV>,
    amount_received: u128,
    maxr: u32,
)
    requires
        ledger_wf(led),
        open_spec(led, chan_key, operator, claims, amount_received, maxr) is Ok,
    ensures
        ledger_wf(open_spec(led, chan_key, operator, claims, amount_received, maxr)->Ok_0),
{
    let chan = match lookup(led, chan_key) {
        Some(c) => c,
        None => ChannelV { operator: operator, recipients: Seq::empty() },
    };
    if lookup(led, chan_key) is Some {
        lemma_lookup_first_index(led, chan_key);
        let i = choose|i: int|
            {
                &&& 0 <= i < led.len()
                &&& (#[trigger] led[i]).0 == chan_key
                &&& led[i].1 == chan
                &&& forall|j: int| 0 <= j < i ==> led[j].0 != chan_key
            };
        assert(chan.wf());
        lemma_apply_claims_wf(chan.recipients, claims, maxr);
        let rs2 = apply_claims(chan.recipients, claims, maxr)->Ok_0;
        let chan2 = ChannelV { operator: chan.operator, recipients: rs2 };
        lemma_set_key_update(led, i, chan_key, chan2);
        lemma_lookup_has_key(led, chan_key);
        let led2 = led.update(i, (chan_key, chan2));
        assert(distinct_keys(led2)) by {
            assert(forall|m: int| 0 <= m < led2.len() ==> (#[trigger] led2[m]).0 == led[m].0);
        }
        assert(forall|m: int| 0 <= m < led2.len() ==> (#[trigger] led2[m]).1.wf());
    } else {
        assert(chan.recipients =~= Seq::<(Seq<char>, RecipientV)>::empty());
        assert(distinct_keys(chan.recipients));
        lemma_apply_claims_wf(chan.recipients, claims, maxr);
        let rs2 = apply_claims(chan.recipients, claims, maxr)->Ok_0;
        let chan2 = ChannelV { operator: chan.operator, recipients: rs2 };
        lemma_lookup_has_key(led, chan_key);
        let led2 = led.push((chan_key, chan2));
        assert(distinct_keys(led2)) by {
            assert forall|m: int, l: int| 0 <= m < l < led2.len() implies led2[m].0
                != led2[l].0 by {
                if l < led.len() {
                    assert(led2[m] == led[m] && led2[l] == led[l]);
                } else {
                    assert(led2[l] == (chan_key, chan2));
                    assert(led2[m] == led[m]);
                    assert(!has_key(led, chan_key));
                }
            }
        }
        assert(forall|m: int| 0 <= m < led2.len() ==> (#[trigger] led2[m]).1.wf());
    }
}

// ---------------------------------------------------------------------------
// Conservation
// ---------------------------------------------------------------------------

/// One open-or-top-up call on a channel ledger, as the conservation law
/// folds them.
pub struct OpenCallV {
    pub operator: Seq<char>,
    pub claims: Seq<ClaimV>,
    pub amount_received: u128,
}

/// Fold a sequence of open-or-top-up calls on one channel key, returning
/// the final ledger and the total escrow the accepted calls deposited.
/// A rejected call leaves the ledger as it was and deposits nothing.
pub open spec fn run_opens(led: LedgerV, chan_key: Seq<char>, calls: Seq<OpenCallV>, maxr: u32) -> (
    LedgerV,
    int,
)
    decreases calls.len(),
{
    if calls.len() == 0 {
        (led, 0)
    } else {
        let c = calls[0];
        match open_spec(led, chan_key, c.operator, c.claims, c.amount_received, maxr) {
            Ok(led2) => {
                let rest = run_opens(led2, chan_key, calls.drop_first(), maxr);
                (rest.0, claims_total(c.claims) + rest.1)
            },
            Err(_) => run_opens(led, chan_key, calls.drop_first(), maxr),
        }
    }
}

/// The escrow ceilings a channel's slots add up to; zero for an absent
/// channel.
pub open spec fn chan_sum(led: LedgerV, chan_key: Seq<char>) -> int {
    match lookup(led, chan_key) {
        Some(c) => sum_max(c.recipients),
        None => 0,
    }
}

/// An accepted claim batch raises the ceiling sum by exactly the batch
/// total.
pub proof fn lemma_apply_claims_sum(
    rs: Seq<(Seq<char>, RecipientV)>,
    claims: Seq<ClaimV>,
    maxr: u32,
)
    requires
        apply_claims(rs, claims, maxr) is Ok,
    ensures
        sum_max(apply_claims(rs, claims, maxr)->Ok_0) == sum_max(rs) + claims_total(claims),
    decreases claims.len(),
{
    if claims.len() > 0 {
        let c = claims[0];
        match lookup(rs, c.key) {
            Some(r) => {
                let topped = RecipientV { max_amount: (r.max_amount + c.max_amount) as u128, ..r };
                lemma_lookup_first_index(rs, c.key);
                let i = choose|i: int|
                    {
                        &&& 0 <= i < rs.len()
                        &&& (#[trigger] rs[i]).0 == c.key
                        &&& rs[i].1 == r
                        &&& forall|j: int| 0 <= j < i ==> rs[j].0 != c.key
                    };
                lemma_set_key_update(rs, i, c.key, topped);
                lemma_sum_max_update(rs, i, (c.key, topped));
                lemma_apply_claims_sum(rs.update(i, (c.key, topped)), claims.drop_first(), maxr);
            },
            None => {
                lemma_sum_max_push(rs, (c.key, new_recipient_v(c)));
                lemma_apply_claims_sum(
                    rs.push((c.key, new_recipient_v(c))),
                    claims.drop_first(),
                    maxr,
                );
            },
        }
    }
}

/// One accepted open-or-top-up call raises the channel's ceiling sum by
/// exactly the batch total, which the deposit received covers; every
/// other channel is untouched.
pub proof fn lemma_open_conservation(
    led: LedgerV,
    chan_key: Seq<char>,
    operator: Seq<char>,
    claims: Seq<ClaimV>,
    amount_received: u128,
    maxr: u32,
)
    requires
        distinct_keys(led),
        open_spec(led, chan_key, operator, claims, amount_received, maxr) is Ok,
    ensures
        ({
            let led2 = open_spec(led, chan_key, operator, claims, amount_received, maxr)->Ok_0;
            &&& chan_sum(led2, chan_key) == chan_sum(led, chan_key) + claims_total(claims)
            &&& claims_total(claims) <= amount_received
            &&& distinct_keys(led2)
            &&& forall|k2: Seq<char>| k2 != chan_key ==> lookup(led2, k2) == lookup(led, k2)
        }),
{
    let chan = match lookup(led, chan_key) {
        Some(c) => c,
        None => ChannelV { operator: operator, recipients: Seq::empty() },
    };
    let rs2 = apply_claims(chan.recipients, claims, maxr)->Ok_0;
    let chan2 = ChannelV { operator: chan.operator, recipients: rs2 };
    lemma_apply_claims_sum(chan.recipients, claims, maxr);
    lemma_lookup_has_key(led, chan_key);
    let led2 = open_spec(led, chan_key, operator, claims, amount_received, maxr)->Ok_0;
    if lookup(led, chan_key) is Some {
        assert forall|k2: Seq<char>| true implies lookup(led2, k2) == (if k2 == chan_key {
            Some(chan2)
        } else {
            lookup(led, k2)
        }) by {
            lemma_lookup_set_key(led, chan_key, chan2, k2);
        }
        lemma_lookup_first_index(led, chan_key);
        let i = choose|i: int|
            {
                &&& 0 <= i < led.len()
                &&& (#[trigger] led[i]).0 == chan_key
                &&& led[i].1 == chan
                &&& forall|j: int| 0 <= j < i ==> led[j].0 != chan_key
            };
        lemma_set_key_update(led, i, chan_key, chan2);
        assert(distinct_keys(led2)) by {
            assert(forall|m: int| 0 <= m < led2.len() ==> (#[trigger] led2[m]).0 == led[m].0);
        }
    } else {
        assert(chan.recipients =~= Seq::<(Seq<char>, RecipientV)>::empty());
        assert(sum_max(chan.recipients) == 0);
        assert forall|k2: Seq<char>| true implies lookup(led2, k2) == (if k2 == chan_key {
            Some(chan2)
        } else {
            lookup(led, k2)
        }) by {
            lemma_lookup_push(led, chan_key, chan2, k2);
        }
        assert(distinct_keys(led2)) by {
            assert forall|m: int, l: int| 0 <= m < l < led2.len() implies led2[m].0
                != led2[l].0 by {
                if l < led.len() {
                    assert(led2[m] == led[m] && led2[l] == led[l]);
                } else {
                    assert(led2[l] == (chan_key, chan2));
                    assert(led2[m] == led[m]);
                    assert(!has_key(led, chan_key));
                }
            }
        }
    }
}

/// Conservation: across any sequence of open-or-top-up calls on a
/// channel, the sum of its slots' ceilings grows by exactly the deposits
/// of the accepted calls — and each accepted call's batch total was no
/// greater than the asset received in it.
pub proof fn lemma_conservation(led: LedgerV, chan_key: Seq<char>, calls: Seq<OpenCallV>, maxr: u32)
    requires
        ledger_wf(led),
    ensures
        ({
            let folded = run_opens(led, chan_key, calls, maxr);
            &&& chan_sum(folded.0, chan_key) == chan_sum(led, chan_key) + folded.1
            &&& folded.1 >= 0
            &&& ledger_wf(folded.0)
        }),
    decreases calls.len(),
{
    if calls.len() > 0 {
        let c = calls[0];
        match open_spec(led, chan_key, c.operator, c.claims, c.amount_received, maxr) {
            Ok(led2) => {
                lemma_open_conservation(led, chan_key, c.operator, c.claims, c.amount_received, maxr);
                lemma_open_wf(led, chan_key, c.operator, c.claims, c.amount_received, maxr);
                lemma_claims_total_nonneg(c.claims);
                lemma_conservation(led2, chan_key, calls.drop_first(), maxr);
            },
            Err(_) => {
                lemma_conservation(led, chan_key, calls.drop_first(), maxr);
            },
        }
    }
}

// ---------------------------------------------------------------------------
// Updating and removing one slot
// ---------------------------------------------------------------------------

/// Replacing one slot of one channel with a well-formed value keeps the
/// ledger well formed, and changes exactly that slot.
pub proof fn lemma_slot_update_wf(led: LedgerV, sk: Seq<char>, rk: Seq<char>, r2: RecipientV)
    requires
        ledger_wf(led),
        lookup(led, sk) is Some,
        lookup(lookup(led, sk)->Some_0.recipients, rk) is Some,
        r2.wf(),
    ensures
        ({
            let chan = lookup(led, sk)->Some_0;
            let chan2 = ChannelV {
                operator: chan.operator,
                recipients: set_key(chan.recipients, rk, r2),
            };
            let led2 = set_key(led, sk, chan2);
            &&& ledger_wf(led2)
            &&& lookup(led2, sk) == Some(chan2)
            &&& (forall|k2: Seq<char>| k2 != sk ==> lookup(led2, k2) == lookup(led, k2))
            &&& lookup(chan2.recipients, rk) == Some(r2)
            &&& (forall|k2: Seq<char>|
                k2 != rk ==> lookup(chan2.recipients, k2) == lookup(chan.recipients, k2))
        }),
{
    let chan = lookup(led, sk)->Some_0;
    let rs = chan.recipients;
    lemma_lookup_first_index(led, sk);
    let i = choose|i: int|
        {
            &&& 0 <= i < led.len()
            &&& (#[trigger] led[i]).0 == sk
            &&& led[i].1 == chan
            &&& forall|j: int| 0 <= j < i ==> led[j].0 != sk
        };
    assert(chan.wf());
    lemma_lookup_first_index(rs, rk);
    let j = choose|j: int|
        {
            &&& 0 <= j < rs.len()
            &&& (#[trigger] rs[j]).0 == rk
            &&& rs[j].1 == lookup(rs, rk)->Some_0
            &&& forall|m: int| 0 <= m < j ==> rs[m].0 != rk
        };
    lemma_set_key_update(rs, j, rk, r2);
    let rs2 = rs.update(j, (rk, r2));
    assert(distinct_keys(rs2)) by {
        assert(forall|m: int| 0 <= m < rs2.len() ==> (#[trigger] rs2[m]).0 == rs[m].0);
    }
    assert(forall|m: int| 0 <= m < rs2.len() ==> (#[trigger] rs2[m]).1.wf());
    let chan2 = ChannelV { operator: chan.operator, recipients: rs2 };
    lemma_set_key_update(led, i, sk, chan2);
    let led2 = led.update(i, (sk, chan2));
    assert(distinct_keys(led2)) by {
        assert(forall|m: int| 0 <= m < led2.len() ==> (#[trigger] led2[m]).0 == led[m].0);
    }
    assert(forall|m: int| 0 <= m < led2.len() ==> (#[trigger] led2[m]).1.wf());
    lemma_lookup_has_key(led, sk);
    lemma_lookup_has_key(rs, rk);
    assert forall|k2: Seq<char>| k2 != sk implies lookup(set_key(led, sk, chan2), k2) == lookup(
        led,
        k2,
    ) by {
        lemma_lookup_set_key(led, sk, chan2, k2);
    }
    lemma_lookup_set_key(led, sk, chan2, sk);
    assert forall|k2: Seq<char>| k2 != rk implies lookup(set_key(rs, rk, r2), k2) == lookup(
        rs,
        k2,
    ) by {
        lemma_lookup_set_key(rs, rk, r2, k2);
    }
    lemma_lookup_set_key(rs, rk, r2, rk);
}

/// Removing one slot of one channel keeps the ledger well formed, and
/// removes exactly that slot.
pub proof fn lemma_slot_remove_wf(led: LedgerV, sk: Seq<char>, rk: Seq<char>)
    requires
        ledger_wf(led),
        lookup(led, sk) is Some,
        lookup(lookup(led, sk)->Some_0.recipients, rk) is Some,
    ensures
        ({
            let chan = lookup(led, sk)->Some_0;
            let chan2 = ChannelV {
                operator: chan.operator,
                recipients: remove_key(chan.recipients, rk),
            };
            let led2 = set_key(led, sk, chan2);
            &&& ledger_wf(led2)
            &&& lookup(led2, sk) == Some(chan2)
            &&& (forall|k2: Seq<char>| k2 != sk ==> lookup(led2, k2) == lookup(led, k2))
            &&& lookup(chan2.recipients, rk) is None
            &&& (forall|k2: Seq<char>|
                k2 != rk ==> lookup(chan2.recipients, k2) == lookup(chan.recipients, k2))
        }),
{
    let chan = lookup(led, sk)->Some_0;
    let rs = chan.recipients;
    lemma_lookup_first_index(led, sk);
    let i = choose|i: int|
        {
            &&& 0 <= i < led.len()
            &&& (#[trigger] led[i]).0 == sk
            &&& led[i].1 == chan
            &&& forall|j: int| 0 <= j < i ==> led[j].0 != sk
        };
    assert(chan.wf());
    lemma_lookup_first_index(rs, rk);
    let j = choose|j: int|
        {
            &&& 0 <= j < rs.len()
            &&& (#[trigger] rs[j]).0 == rk
            &&& rs[j].1 == lookup(rs, rk)->Some_0
            &&& forall|m: int| 0 <= m < j ==> rs[m].0 != rk
        };
    lemma_remove_key_at(rs, j, rk);
    let rs2 = rs.remove(j);
    assert forall|m: int, l: int| 0 <= m < l < rs2.len() implies (#[trigger] rs2[m]).0
        != (#[trigger] rs2[l]).0 by {
        let m0 = if m < j {
            m
        } else {
            m + 1
        };
        let l0 = if l < j {
            l
        } else {
            l + 1
        };
        assert(rs2[m] == rs[m0]);
        assert(rs2[l] == rs[l0]);
    }
    assert forall|m: int| 0 <= m < rs2.len() implies (#[trigger] rs2[m]).1.wf() by {
        let m0 = if m < j {
            m
        } else {
            m + 1
        };
        assert(rs2[m] == rs[m0]);
    }
    let chan2 = ChannelV { operator: chan.operator, recipients: rs2 };
    lemma_set_key_update(led, i, sk, chan2);
    let led2 = led.update(i, (sk, chan2));
    assert(distinct_keys(led2)) by {
        assert(forall|m: int| 0 <= m < led2.len() ==> (#[trigger] led2[m]).0 == led[m].0);
    }
    assert(forall|m: int| 0 <= m < led2.len() ==> (#[trigger] led2[m]).1.wf());
    lemma_lookup_has_key(led, sk);
    assert forall|k2: Seq<char>| k2 != sk implies lookup(set_key(led, sk, chan2), k2) == lookup(
        led,
        k2,
    ) by {
        lemma_lookup_set_key(led, sk, chan2, k2);
    }
    lemma_lookup_set_key(led, sk, chan2, sk);
    assert forall|k2: Seq<char>| true implies lookup(rs2, k2) == (if k2 == rk {
        None::<RecipientV>
    } else {
        lookup(rs, k2)
    }) by {
        lemma_lookup_remove_key(rs, rk, k2);
    }
}

// ---------------------------------------------------------------------------
// No over-withdrawal
// ---------------------------------------------------------------------------

/// No over-withdrawal: after an accepted cheque the ledger — in
/// particular every slot's redeemed value against its ceiling — stays
/// well formed, and a cheque whose new cumulative value would pass the
/// slot's ceiling is rejected before any state changes.
pub proof fn lemma_no_overwithdrawal(led: LedgerV, rk: Seq<char>, c: ChequeV)
    requires
        ledger_wf(led),
    ensures
        cash_one(led, rk, c) is Ok ==> ledger_wf(cash_one(led, rk, c)->Ok_0.0),
        (match lookup(led, c.sender_key) {
            Some(chan) => match lookup(chan.recipients, rk) {
                Some(r) => (c.nonce as int) * (match r.face_value {
                    Some(f) => f as int,
                    None => 0,
                }) > r.max_amount ==> cash_one(led, rk, c) is Err,
                None => true,
            },
            None => true,
        }),
{
    if cash_one(led, rk, c) is Ok {
        let chan = lookup(led, c.sender_key)->Some_0;
        let r = lookup(chan.recipients, rk)->Some_0;
        let redeemed = RecipientV { withdrawl_seq: Some(c.nonce), ..r };
        assert(redeemed.wf());
        lemma_slot_update_wf(led, c.sender_key, rk, redeemed);
    }
}

// ---------------------------------------------------------------------------
// Monotonic sequence numbers
// ---------------------------------------------------------------------------

/// Monotonic sequence: two cheques with sequence numbers `s1 < s2` redeem
/// in order — the second paying exactly `(s2 - s1)` times the face value
/// — and replaying the first after the second is rejected as stale.
pub proof fn lemma_monotonic_sequence(
    led: LedgerV,
    rk: Seq<char>,
    c1: ChequeV,
    c2: ChequeV,
    c3: ChequeV,
)
    requires
        ledger_wf(led),
        c2.sender_key == c1.sender_key,
        c3.sender_key == c1.sender_key,
        c3.nonce == c1.nonce,
        cash_one(led, rk, c1) is Ok,
        c1.nonce < c2.nonce,
        ({
            let chan = lookup(led, c1.sender_key)->Some_0;
            let r = lookup(chan.recipients, rk)->Some_0;
            (c2.nonce as int) * (match r.face_value {
                Some(f) => f as int,
                None => 0,
            }) <= r.max_amount
        }),
    ensures
        ({
            let led1 = cash_one(led, rk, c1)->Ok_0.0;
            let chan = lookup(led, c1.sender_key)->Some_0;
            let r = lookup(chan.recipients, rk)->Some_0;
            let face = (match r.face_value {
                Some(f) => f as int,
                None => 0,
            });
            &&& cash_one(led1, rk, c2) is Ok
            &&& cash_one(led1, rk, c2)->Ok_0.1 == (c2.nonce - c1.nonce) * face
            &&& cash_one(cash_one(led1, rk, c2)->Ok_0.0, rk, c3) == Err::<
                (LedgerV, u128),
                ErrorV,
            >(ErrorV::StaleOrReplayedSequence)
        }),
{
    let sk = c1.sender_key;
    let chan = lookup(led, sk)->Some_0;
    let r = lookup(chan.recipients, rk)->Some_0;
    let face = (match r.face_value {
        Some(f) => f as int,
        None => 0,
    });
    let r1 = RecipientV { withdrawl_seq: Some(c1.nonce), ..r };
    assert(r1.wf());
    lemma_slot_update_wf(led, sk, rk, r1);
    let led1 = cash_one(led, rk, c1)->Ok_0.0;
    let chan1 = lookup(led1, sk)->Some_0;
    assert((c1.nonce as int) * face <= (c2.nonce as int) * face) by (nonlinear_arith)
        requires
            0 <= c1.nonce <= c2.nonce,
            0 <= face,
    ;
    let r2 = RecipientV { withdrawl_seq: Some(c2.nonce), ..r1 };
    assert(cash_one(led1, rk, c2) is Ok);
    assert(0 <= ((c2.nonce - c1.nonce) as int) * face <= (c2.nonce as int) * face)
        by (nonlinear_arith)
        requires
            0 <= c1.nonce < c2.nonce,
            0 <= face,
    ;
    assert(cash_one(led1, rk, c2)->Ok_0.1 == (c2.nonce - c1.nonce) * face);
    assert(r2.wf());
    lemma_slot_update_wf(led1, sk, rk, r2);
    let led2 = cash_one(led1, rk, c2)->Ok_0.0;
    assert(lookup(lookup(led2, sk)->Some_0.recipients, rk) == Some(r2));
    assert(cash_one(led2, rk, c3) == Err::<(LedgerV, u128), ErrorV>(
        ErrorV::StaleOrReplayedSequence,
    ));
}

// ---------------------------------------------------------------------------
// Idempotent close of a settled slot
// ---------------------------------------------------------------------------

/// Closing an already-settled recipient again is a no-op: no error, no
/// refund, ledger unchanged — whatever the verifier said of the
/// commitment.
pub proof fn lemma_close_idempotent(
    led: LedgerV,
    caller: Seq<char>,
    now: u64,
    window: u64,
    chan_key: Seq<char>,
    k: Seq<char>,
    accepted: bool,
)
    requires
        ledger_wf(led),
        lookup(led, chan_key) is Some,
        lookup(led, chan_key)->Some_0.operator == caller,
        !has_key(lookup(led, chan_key)->Some_0.recipients, k),
    ensures
        close_spec(led, caller, now, window, chan_key, seq![(k, accepted)]) == Ok::<
            (LedgerV, u128),
            ErrorV,
        >((led, 0)),
{
    let chan = lookup(led, chan_key)->Some_0;
    lemma_lookup_has_key(chan.recipients, k);
    let cls = seq![(k, accepted)];
    let rest = cls.drop_first();
    assert(rest =~= Seq::<(Seq<char>, bool)>::empty());
    assert(close_fold(chan.recipients, rest, window, now, 0) == Ok::<_, ErrorV>(
        (chan.recipients, 0u128),
    ));
    assert(close_fold(chan.recipients, cls, window, now, 0) == Ok::<_, ErrorV>(
        (chan.recipients, 0u128),
    ));
    assert(ChannelV { operator: chan.operator, recipients: chan.recipients } == chan);
    lemma_set_key_same(led, chan_key);
}

// ---------------------------------------------------------------------------
// Dispute-window gating
// ---------------------------------------------------------------------------

/// Dispute-window gating: a unilateral close on a slot with no pending
/// window opens one and refunds nothing in the same call; a second close
/// before the window elapses changes nothing; a close once it has elapsed
/// refunds exactly the slot's remainder and removes it.
pub proof fn lemma_dispute_window(
    led: LedgerV,
    caller: Seq<char>,
    chan_key: Seq<char>,
    k: Seq<char>,
    window: u64,
    now1: u64,
    now2: u64,
    now3: u64,
)
    requires
        ledger_wf(led),
        lookup(led, chan_key) is Some,
        lookup(led, chan_key)->Some_0.operator == caller,
        lookup(lookup(led, chan_key)->Some_0.recipients, k) is Some,
        lookup(lookup(led, chan_key)->Some_0.recipients, k)->Some_0.auto_release is None,
        now1 + window <= u64::MAX,
        now2 < now1 + window,
        now3 >= now1 + window,
    ensures
        ({
            let chan = lookup(led, chan_key)->Some_0;
            let r = lookup(chan.recipients, k)->Some_0;
            let first = close_spec(led, caller, now1, window, chan_key, seq![(k, false)]);
            &&& first is Ok
            &&& first->Ok_0.1 == 0
            &&& ({
                let led1 = first->Ok_0.0;
                let second = close_spec(led1, caller, now2, window, chan_key, seq![(k, false)]);
                let third = close_spec(led1, caller, now3, window, chan_key, seq![(k, false)]);
                &&& lookup(lookup(led1, chan_key)->Some_0.recipients, k) == Some(
                    RecipientV { auto_release: Some((now1 + window) as u64), ..r },
                )
                &&& second == Ok::<(LedgerV, u128), ErrorV>((led1, 0))
                &&& third is Ok
                &&& third->Ok_0.1 == r.remain()
                &&& !has_key(lookup(third->Ok_0.0, chan_key)->Some_0.recipients, k)
            })
        }),
{
    let chan = lookup(led, chan_key)->Some_0;
    let rs = chan.recipients;
    let r = lookup(rs, k)->Some_0;
    let cls = seq![(k, false)];
    let rest = cls.drop_first();
    assert(rest =~= Seq::<(Seq<char>, bool)>::empty());

    // First call: the window opens, nothing is refunded.
    let requested = RecipientV { auto_release: Some((now1 + window) as u64), ..r };
    assert(requested.wf()) by {
        lemma_lookup_first_index(led, chan_key);
        let i = choose|i: int|
            {
                &&& 0 <= i < led.len()
                &&& (#[trigger] led[i]).0 == chan_key
                &&& led[i].1 == chan
                &&& forall|m: int| 0 <= m < i ==> led[m].0 != chan_key
            };
        assert(chan.wf());
        lemma_lookup_first_index(rs, k);
        let j = choose|j: int|
            {
                &&& 0 <= j < rs.len()
                &&& (#[trigger] rs[j]).0 == k
                &&& rs[j].1 == r
                &&& forall|m: int| 0 <= m < j ==> rs[m].0 != k
            };
        assert(rs[j].1.wf());
    }
    lemma_slot_update_wf(led, chan_key, k, requested);
    assert(close_fold(set_key(rs, k, requested), rest, window, now1, 0) == Ok::<_, ErrorV>(
        (set_key(rs, k, requested), 0u128),
    ));
    assert(close_fold(rs, cls, window, now1, 0) == Ok::<_, ErrorV>(
        (set_key(rs, k, requested), 0u128),
    ));
    let chan1 = ChannelV { operator: chan.operator, recipients: set_key(rs, k, requested) };
    let led1 = set_key(led, chan_key, chan1);
    assert(close_spec(led, caller, now1, window, chan_key, cls) == Ok::<_, ErrorV>((led1, 0u128)));

    // Second call, before the window elapses: nothing changes.
    assert(lookup(led1, chan_key) == Some(chan1));
    assert(lookup(chan1.recipients, k) == Some(requested));
    assert(close_fold(chan1.recipients, rest, window, now2, 0) == Ok::<_, ErrorV>(
        (chan1.recipients, 0u128),
    ));
    assert(close_fold(chan1.recipients, cls, window, now2, 0) == Ok::<_, ErrorV>(
        (chan1.recipients, 0u128),
    ));
    assert(ChannelV { operator: chan1.operator, recipients: chan1.recipients } == chan1);
    lemma_set_key_same(led1, chan_key);
    assert(close_spec(led1, caller, now2, window, chan_key, cls) == Ok::<_, ErrorV>(
        (led1, 0u128),
    ));

    // Third call, after the window: the remainder is refunded, the slot
    // goes away.
    assert(requested.wf());
    assert(requested.remain() == r.remain());
    assert(close_fold(remove_key(chan1.recipients, k), rest, window, now3, (
    requested.remain()) as u128) == Ok::<_, ErrorV>(
        (remove_key(chan1.recipients, k), (requested.remain()) as u128),
    ));
    assert(close_fold(chan1.recipients, cls, window, now3, 0) == Ok::<_, ErrorV>(
        (remove_key(chan1.recipients, k), (requested.remain()) as u128),
    ));
    lemma_slot_remove_wf(led1, chan_key, k);
    let chan3 = ChannelV {
        operator: chan1.operator,
        recipients: remove_key(chan1.recipients, k),
    };
    let led3 = set_key(led1, chan_key, chan3);
    assert(close_spec(led1, caller, now3, window, chan_key, cls) == Ok::<_, ErrorV>(
        (led3, (requested.remain()) as u128),
    ));
    assert(lookup(led3, chan_key) == Some(chan3));
    lemma_lookup_has_key(chan3.recipients, k);
}

} // verus!
