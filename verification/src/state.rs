//! Executable ledger state: the configuration, channels and recipient slots.
//!
//! Collections are association vectors — `Vec` of `(key, value)` pairs with
//! pairwise-distinct keys — which view into the association sequences of
//! `model`.

use vstd::prelude::*;

use crate::model::{
    distinct_keys, has_key, lemma_lookup_absent, lemma_lookup_at, lookup, ChannelV, ConfigV,
    DenomV, LedgerV, RecipientV,
};

verus! {

/// A copy of a string vector, equal element by element.
pub fn clone_string_vec(v: &Vec<String>) -> (r: Vec<String>)
    ensures
        r@ == v@,
        r.deep_view() == v.deep_view(),
{
    let r = v.clone();
    proof {
        assert forall|i: int| 0 <= i < r@.len() implies r@[i] == v@[i] by {
            assert(cloned::<String>(v@[i], r@[i]));
        }
        assert(r@ =~= v@);
        assert(r.deep_view() =~~= v.deep_view());
    }
    r
}

/// The asset kind a deployment settles in: a native token denomination or
/// the address of a fungible-token contract.
#[derive(Debug, PartialEq, Eq)]
pub enum Denom {
    Native(String),
    Cw20(String),
}

impl View for Denom {
    type V = DenomV;

    open spec fn view(&self) -> DenomV {
        match self {
            Denom::Native(d) => DenomV::Native(d@),
            Denom::Cw20(a) => DenomV::Cw20(a@),
        }
    }
}

/// Deployment configuration: the settlement asset, the dispute-window
/// length, the administering owner and the recipient-slot cap.
#[derive(Debug, PartialEq, Eq)]
pub struct Config {
    pub denom: Denom,
    pub auto_release_time: u64,
    pub owner: String,
    pub max_recipient: u32,
}

impl View for Config {
    type V = ConfigV;

    open spec fn view(&self) -> ConfigV {
        ConfigV {
            denom: self.denom@,
            auto_release_time: self.auto_release_time,
            owner: self.owner@,
            max_recipient: self.max_recipient,
        }
    }
}

/// One recipient slot within a channel.
#[derive(Debug, PartialEq, Eq)]
pub struct Recipient {
    pub max_amount: u128,
    pub withdrawl_seq: Option<u64>,
    pub face_value: Option<u128>,
    pub auto_release: Option<u64>,
    pub approve_signers: Vec<String>,
}

impl View for Recipient {
    type V = RecipientV;

    open spec fn view(&self) -> RecipientV {
        RecipientV {
            max_amount: self.max_amount,
            withdrawl_seq: self.withdrawl_seq,
            face_value: self.face_value,
            auto_release: self.auto_release,
            approve_signers: self.approve_signers.deep_view(),
        }
    }
}

impl DeepView for Recipient {
    type V = RecipientV;

    open spec fn deep_view(&self) -> RecipientV {
        self.view()
    }
}

impl Recipient {
    /// The slot a fresh claim opens: nothing redeemed, no close requested.
    #[inline]
    pub fn new(signers: Vec<String>, max_amount: u128, face_value: u128) -> (r: Self)
        ensures
            r@ == (RecipientV {
                max_amount: max_amount,
                withdrawl_seq: None,
                face_value: Some(face_value),
                auto_release: None,
                approve_signers: signers.deep_view(),
            }),
    {
        Self {
            max_amount,
            withdrawl_seq: None,
            face_value: Some(face_value),
            auto_release: None,
            approve_signers: signers,
        }
    }

    /// Whether the slot's redeemed value fits under its ceiling.  An
    /// unverified caller can test this before relying on `remain`.
    pub fn check_wf(&self) -> (b: bool)
        ensures
            b == self@.wf(),
    {
        match (self.withdrawl_seq, self.face_value) {
            (Some(s), Some(f)) => match (s as u128).checked_mul(f) {
                Some(c) => c <= self.max_amount,
                None => false,
            },
            _ => true,
        }
    }

    /// Escrow still unredeemed: the ceiling minus the value already cashed.
    pub fn remain(&self) -> (r: u128)
        requires
            self@.wf(),
        ensures
            r == self@.remain(),
    {
        let consumed: u128 = match (self.withdrawl_seq, self.face_value) {
            (Some(s), Some(f)) => {
                proof {
                    assert((s as int) * (f as int) <= self.max_amount);
                }
                (s as u128) * f
            },
            _ => 0,
        };
        self.max_amount - consumed
    }
}

impl Clone for Denom {
    fn clone(&self) -> (r: Self)
        ensures
            r@ == self@,
    {
        match self {
            Denom::Native(d) => Denom::Native(d.clone()),
            Denom::Cw20(a) => Denom::Cw20(a.clone()),
        }
    }
}

impl Clone for Config {
    fn clone(&self) -> (r: Self)
        ensures
            r@ == self@,
    {
        Config {
            denom: self.denom.clone(),
            auto_release_time: self.auto_release_time,
            owner: self.owner.clone(),
            max_recipient: self.max_recipient,
        }
    }
}

impl Clone for Recipient {
    fn clone(&self) -> (r: Self)
        ensures
            r@ == self@,
    {
        Recipient {
            max_amount: self.max_amount,
            withdrawl_seq: self.withdrawl_seq,
            face_value: self.face_value,
            auto_release: self.auto_release,
            approve_signers: clone_string_vec(&self.approve_signers),
        }
    }
}

/// One channel: its operator and its recipient slots, keyed by the
/// recipient's public-key hash.
#[derive(Debug, PartialEq, Eq)]
pub struct PaymentChannel {
    pub operator: String,
    pub recipients: Vec<(String, Recipient)>,
}

impl View for PaymentChannel {
    type V = ChannelV;

    open spec fn view(&self) -> ChannelV {
        ChannelV { operator: self.operator@, recipients: self.recipients.deep_view() }
    }
}

impl DeepView for PaymentChannel {
    type V = ChannelV;

    open spec fn deep_view(&self) -> ChannelV {
        self.view()
    }
}

impl PaymentChannel {
    /// Whether the channel is well formed: recipient keys pairwise
    /// distinct and every slot within its ceiling.  An unverified caller
    /// can test this before handing the channel to an operation.
    pub fn check_wf(&self) -> (b: bool)
        ensures
            b == self@.wf(),
    {
        let n = self.recipients.len();
        let mut i: usize = 0;
        while i < n
            invariant
                i <= n,
                n == self.recipients@.len(),
                forall|a: int, b: int|
                    0 <= a < b < n && a < i ==> (#[trigger] self@.recipients[a]).0
                        != (#[trigger] self@.recipients[b]).0,
                forall|a: int| 0 <= a < i ==> (#[trigger] self@.recipients[a]).1.wf(),
            decreases n - i,
        {
            if !self.recipients[i].1.check_wf() {
                proof {
                    assert(!(self@.recipients[i as int].1.wf()));
                }
                return false;
            }
            let mut j: usize = i + 1;
            while j < n
                invariant
                    i < j <= n,
                    n == self.recipients@.len(),
                    forall|m: int|
                        i < m < j ==> (#[trigger] self@.recipients[m]).0 != self@.recipients[i
                            as int].0,
                decreases n - j,
            {
                if self.recipients[i].0 == self.recipients[j].0 {
                    proof {
                        assert(self@.recipients[i as int].0 == self@.recipients[j as int].0);
                        assert(!crate::model::distinct_keys(self@.recipients));
                    }
                    return false;
                }
                j += 1;
            }
            i += 1;
        }
        true
    }

    /// Position of the slot stored under `key`, if any.
    pub fn find_recipient(&self, key: &String) -> (r: Option<usize>)
        ensures
            match r {
                Some(i) => {
                    &&& i < self.recipients@.len()
                    &&& self@.recipients[i as int].0 == key@
                    &&& forall|j: int| 0 <= j < i ==> self@.recipients[j].0 != key@
                    &&& lookup(self@.recipients, key@) == Some(self@.recipients[i as int].1)
                },
                None => {
                    &&& !has_key(self@.recipients, key@)
                    &&& lookup(self@.recipients, key@) is None
                },
            },
    {
        let n = self.recipients.len();
        let mut i: usize = 0;
        while i < n
            invariant
                i <= n,
                n == self.recipients@.len(),
                forall|j: int| 0 <= j < i ==> self@.recipients[j].0 != key@,
            decreases n - i,
        {
            if self.recipients[i].0 == *key {
                proof {
                    lemma_lookup_at(self@.recipients, i as int, key@);
                }
                return Some(i);
            }
            i += 1;
        }
        proof {
            lemma_lookup_absent(self@.recipients, key@);
        }
        None
    }
}

impl Clone for PaymentChannel {
    fn clone(&self) -> (r: Self)
        ensures
            r@ == self@,
    {
        let n = self.recipients.len();
        let mut rs: Vec<(String, Recipient)> = Vec::new();
        let mut i: usize = 0;
        while i < n
            invariant
                i <= n,
                n == self.recipients@.len(),
                rs@.len() == i,
                forall|j: int|
                    0 <= j < i ==> (#[trigger] rs@[j]).0@ == self.recipients@[j].0@ && rs@[j].1@
                        == self.recipients@[j].1@,
            decreases n - i,
        {
            let key = self.recipients[i].0.clone();
            let slot = self.recipients[i].1.clone();
            rs.push((key, slot));
            i += 1;
        }
        proof {
            assert forall|j: int|
                0 <= j < n implies #[trigger] rs.deep_view()[j]
                == self.recipients.deep_view()[j] by {
                assert(rs.deep_view()[j] == (rs@[j].0@, rs@[j].1@));
                assert(self.recipients.deep_view()[j] == (
                    self.recipients@[j].0@,
                    self.recipients@[j].1@,
                ));
            }
            assert(rs.deep_view() =~= self.recipients.deep_view());
        }
        PaymentChannel { operator: self.operator.clone(), recipients: rs }
    }
}

/// The whole ledger: channels keyed by the sender's channel key.
#[derive(Debug, PartialEq, Eq)]
pub struct PaymentLedger {
    pub channels: Vec<(String, PaymentChannel)>,
}

impl View for PaymentLedger {
    type V = LedgerV;

    open spec fn view(&self) -> LedgerV {
        self.channels.deep_view()
    }
}

impl Clone for PaymentLedger {
    fn clone(&self) -> (r: Self)
        ensures
            r@ == self@,
    {
        let n = self.channels.len();
        let mut cs: Vec<(String, PaymentChannel)> = Vec::new();
        let mut i: usize = 0;
        while i < n
            invariant
                i <= n,
                n == self.channels@.len(),
                cs@.len() == i,
                forall|j: int|
                    0 <= j < i ==> (#[trigger] cs@[j]).0@ == self.channels@[j].0@ && cs@[j].1@
                        == self.channels@[j].1@,
            decreases n - i,
        {
            let key = self.channels[i].0.clone();
            let chan = self.channels[i].1.clone();
            cs.push((key, chan));
            i += 1;
        }
        proof {
            assert forall|j: int|
                0 <= j < n implies #[trigger] cs.deep_view()[j] == self.channels.deep_view()[j] by {
                assert(cs.deep_view()[j] == (cs@[j].0@, cs@[j].1@));
                assert(self.channels.deep_view()[j] == (self.channels@[j].0@, self.channels@[j].1@));
            }
            assert(cs.deep_view() =~= self.channels.deep_view());
        }
        PaymentLedger { channels: cs }
    }
}

impl PaymentLedger {
    /// An empty ledger, the state before any channel is opened.
    pub fn new() -> (r: Self)
        ensures
            r@ == Seq::<(Seq<char>, ChannelV)>::empty(),
    {
        let r = PaymentLedger { channels: Vec::new() };
        proof {
            assert(r@ =~= Seq::<(Seq<char>, ChannelV)>::empty());
        }
        r
    }

    /// Whether the whole ledger is well formed: channel keys pairwise
    /// distinct and every channel well formed.  The operations require
    /// this; an unverified caller can test it first.
    pub fn check_wf(&self) -> (b: bool)
        ensures
            b == crate::model::ledger_wf(self@),
    {
        let n = self.channels.len();
        let mut i: usize = 0;
        while i < n
            invariant
                i <= n,
                n == self.channels@.len(),
                forall|a: int, b: int|
                    0 <= a < b < n && a < i ==> (#[trigger] self@[a]).0 != (#[trigger] self@[b]).0,
                forall|a: int| 0 <= a < i ==> (#[trigger] self@[a]).1.wf(),
            decreases n - i,
        {
            if !self.channels[i].1.check_wf() {
                proof {
                    assert(!(self@[i as int].1.wf()));
                }
                return false;
            }
            let mut j: usize = i + 1;
            while j < n
                invariant
                    i < j <= n,
                    n == self.channels@.len(),
                    forall|m: int| i < m < j ==> (#[trigger] self@[m]).0 != self@[i as int].0,
                decreases n - j,
            {
                if self.channels[i].0 == self.channels[j].0 {
                    proof {
                        assert(self@[i as int].0 == self@[j as int].0);
                        assert(!crate::model::distinct_keys(self@));
                    }
                    return false;
                }
                j += 1;
            }
            i += 1;
        }
        true
    }

    /// Position of the channel stored under `key`, if any.
    pub fn find_channel(&self, key: &String) -> (r: Option<usize>)
        ensures
            match r {
                Some(i) => {
                    &&& i < self.channels@.len()
                    &&& self@[i as int].0 == key@
                    &&& forall|j: int| 0 <= j < i ==> self@[j].0 != key@
                    &&& lookup(self@, key@) == Some(self@[i as int].1)
                },
                None => {
                    &&& !has_key(self@, key@)
                    &&& lookup(self@, key@) is None
                },
            },
    {
        let n = self.channels.len();
        let mut i: usize = 0;
        while i < n
            invariant
                i <= n,
                n == self.channels@.len(),
                forall|j: int| 0 <= j < i ==> self@[j].0 != key@,
            decreases n - i,
        {
            if self.channels[i].0 == *key {
                proof {
                    lemma_lookup_at(self@, i as int, key@);
                }
                return Some(i);
            }
            i += 1;
        }
        proof {
            lemma_lookup_absent(self@, key@);
        }
        None
    }
}

} // verus!
