//! A list of ESDT payments in which each (token, nonce) occurs at most once: adding a
//! payment of a listed token raises its amount, taking one lowers it.
use vstd::prelude::*;
use crate::table::{keys_distinct, lemma_index_of_unique, lemma_push_view, lemma_update_view, seq_has_key, seq_index_of};
use crate::types::{bytes_equal, Amount, EsdtTokenPayment};

verus! {

/// A payment as a value: ((token identifier, nonce), amount).
pub type PaymentView = ((Seq<u8>, u64), nat);

pub open spec fn payment_view(p: EsdtTokenPayment) -> PaymentView {
    ((p.token_identifier@, p.token_nonce), p.amount@)
}

/// The list after adding payment `p`. A zero amount changes nothing.
pub open spec fn add_payment_result(ps: Seq<PaymentView>, p: PaymentView) -> Seq<PaymentView> {
    if p.1 == 0 {
        ps
    } else if seq_has_key(ps, p.0) {
        let i = seq_index_of(ps, p.0);
        ps.update(i, (p.0, ps[i].1 + p.1))
    } else {
        ps.push(p)
    }
}

/// The list after taking payment `p` out, or `None` when the token is not listed or
/// its amount is too small. An entry whose amount reaches zero is removed.
pub open spec fn withdraw_payment_result(ps: Seq<PaymentView>, p: PaymentView) -> Option<Seq<PaymentView>> {
    if !seq_has_key(ps, p.0) {
        None
    } else {
        let i = seq_index_of(ps, p.0);
        if ps[i].1 < p.1 {
            None
        } else if ps[i].1 - p.1 > 0 {
            Some(ps.update(i, (p.0, (ps[i].1 - p.1) as nat)))
        } else {
            Some(ps.remove(i))
        }
    }
}

/// Removing an entry keeps the keys distinct.
pub proof fn lemma_remove_distinct<K, V>(s: Seq<(K, V)>, i: int)
    requires
        keys_distinct(s),
        0 <= i < s.len(),
    ensures
        keys_distinct(s.remove(i)),
{
    let t = s.remove(i);
    assert forall|a: int, b: int|
        #![trigger t[a], t[b]]
        0 <= a < t.len() && 0 <= b < t.len() && a != b implies t[a].0 != t[b].0 by {
        let a2 = if a < i {
            a
        } else {
            a + 1
        };
        let b2 = if b < i {
            b
        } else {
            b + 1
        };
        assert(t[a] == s[a2] && t[b] == s[b2]);
    }
}

/// Payments with distinct (token, nonce).
pub struct UniquePayments {
    payments: Vec<EsdtTokenPayment>,
}

impl UniquePayments {
    pub closed spec fn view(&self) -> Seq<PaymentView> {
        self.payments@.map_values(|p: EsdtTokenPayment| payment_view(p))
    }

    pub open spec fn wf(&self) -> bool {
        keys_distinct(self@)
    }

    /// An empty list.
    pub fn new() -> (r: UniquePayments)
        ensures
            r.wf(),
            r@ == Seq::<PaymentView>::empty(),
    {
        let r = UniquePayments { payments: Vec::new() };
        assert(r@ =~= Seq::<PaymentView>::empty());
        r
    }

    /// Wraps a list whose (token, nonce) pairs are already distinct.
    pub fn new_from_unique_payments(payments: Vec<EsdtTokenPayment>) -> (r: UniquePayments)
        requires
            keys_distinct(payments@.map_values(|p: EsdtTokenPayment| payment_view(p))),
        ensures
            r.wf(),
            r@ == payments@.map_values(|p: EsdtTokenPayment| payment_view(p)),
    {
        UniquePayments { payments }
    }

    /// A one-payment list.
    pub fn from_single_item(payment: EsdtTokenPayment) -> (r: UniquePayments)
        ensures
            r.wf(),
            r@ == seq![payment_view(payment)],
    {
        let mut payments: Vec<EsdtTokenPayment> = Vec::new();
        payments.push(payment);
        let r = UniquePayments { payments };
        assert(r@ =~= seq![payment_view(payment)]);
        r
    }

    /// The payments, in order.
    pub fn into_payments(self) -> (v: Vec<EsdtTokenPayment>)
        ensures
            v@.map_values(|p: EsdtTokenPayment| payment_view(p)) == self@,
    {
        self.payments
    }

    pub fn len(&self) -> (n: usize)
        ensures
            n == self@.len(),
    {
        self.payments.len()
    }

    /// The payment at position `i`.
    pub fn get(&self, i: usize) -> (p: &EsdtTokenPayment)
        requires
            i < self@.len(),
        ensures
            payment_view(*p) == self@[i as int],
    {
        &self.payments[i]
    }

    /// A copy with the same payments.
    pub fn duplicate(&self) -> (r: UniquePayments)
        ensures
            r@ == self@,
    {
        let mut payments: Vec<EsdtTokenPayment> = Vec::new();
        let mut i: usize = 0;
        while i < self.payments.len()
            invariant
                i <= self.payments@.len(),
                payments@.map_values(|p: EsdtTokenPayment| payment_view(p)) =~= self@.subrange(0, i as int),
            decreases self.payments@.len() - i,
        {
            let p = self.payments[i].duplicate();
            let ghost prev = payments@;
            payments.push(p);
            proof {
                assert(payment_view(p) == self@[i as int]);
                assert(payments@.map_values(|p: EsdtTokenPayment| payment_view(p)) =~= prev.map_values(
                    |p: EsdtTokenPayment| payment_view(p),
                ).push(payment_view(p)));
                assert(self@.subrange(0, i + 1) =~= self@.subrange(0, i as int).push(self@[i as int]));
            }
            i = i + 1;
        }
        assert(self@.subrange(0, self@.len() as int) =~= self@);
        UniquePayments { payments }
    }

    /// The position of (token, nonce), if listed.
    fn find(&self, token: &Vec<u8>, nonce: u64) -> (r: Option<usize>)
        requires
            self.wf(),
        ensures
            r is None <==> !seq_has_key(self@, (token@, nonce)),
            r matches Some(i) ==> i == seq_index_of(self@, (token@, nonce)) && i < self@.len(),
    {
        let mut i: usize = 0;
        while i < self.payments.len()
            invariant
                self.wf(),
                i <= self@.len(),
                self@.len() == self.payments@.len(),
                forall|j: int| 0 <= j < i ==> (#[trigger] self@[j]).0 != (token@, nonce),
            decreases self.payments@.len() - i,
        {
            let p = &self.payments[i];
            if bytes_equal(&p.token_identifier, token) && p.token_nonce == nonce {
                proof {
                    assert(self@[i as int].0 == (token@, nonce));
                    lemma_index_of_unique(self@, i as int);
                }
                return Some(i);
            }
            assert(self@[i as int].0 != (token@, nonce));
            i = i + 1;
        }
        proof {
            if seq_has_key(self@, (token@, nonce)) {
                let j = seq_index_of(self@, (token@, nonce));
                assert(self@[j].0 == (token@, nonce));
            }
        }
        None
    }

    /// Sets the amount of the payment at position `i`.
    pub fn set_amount(&mut self, i: usize, amount: Amount)
        requires
            old(self).wf(),
            i < old(self)@.len(),
        ensures
            final(self).wf(),
            final(self)@ == old(self)@.update(i as int, (old(self)@[i as int].0, amount@)),
    {
        let ghost a = amount@;
        let old_p = &self.payments[i];
        let p = EsdtTokenPayment {
            token_identifier: crate::types::copy_bytes(&old_p.token_identifier),
            token_nonce: old_p.token_nonce,
            amount,
        };
        proof {
            lemma_update_view(self@, i as int, a);
        }
        self.payments.set(i, p);
        assert(self@ =~= old(self)@.update(i as int, (old(self)@[i as int].0, a)));
    }

    /// Adds `payment`: a listed (token, nonce) gets its amount raised, a new one is
    /// appended, a zero amount changes nothing.
    pub fn add_payment(&mut self, payment: EsdtTokenPayment)
        requires
            old(self).wf(),
        ensures
            final(self).wf(),
            final(self)@ == add_payment_result(old(self)@, payment_view(payment)),
    {
        if payment.amount.is_zero() {
            return;
        }
        match self.find(&payment.token_identifier, payment.token_nonce) {
            Some(i) => {
                let sum = self.payments[i].amount.add(&payment.amount);
                self.set_amount(i, sum);
            },
            None => {
                proof {
                    lemma_push_view(self@, (payment.token_identifier@, payment.token_nonce), payment.amount@);
                }
                let ghost pv = payment_view(payment);
                self.payments.push(payment);
                assert(self@ =~= old(self)@.push(pv));
            },
        }
    }

    /// Takes `payment` out: the listed amount is lowered and the entry removed when it
    /// reaches zero. Refused, changing nothing, when the (token, nonce) is not listed or
    /// its amount is smaller.
    pub fn withdraw_payments(&mut self, payment: &EsdtTokenPayment) -> (r: Result<(), ()>)
        requires
            old(self).wf(),
        ensures
            final(self).wf(),
            match withdraw_payment_result(old(self)@, payment_view(*payment)) {
                Some(ps) => r is Ok && final(self)@ == ps,
                None => r is Err && final(self)@ == old(self)@,
            },
    {
        match self.find(&payment.token_identifier, payment.token_nonce) {
            Some(i) => {
                let rest = match self.payments[i].amount.checked_sub(&payment.amount) {
                    Some(d) => d,
                    None => {
                        return Err(());
                    },
                };
                if !rest.is_zero() {
                    self.set_amount(i, rest);
                } else {
                    proof {
                        lemma_remove_distinct(self@, i as int);
                    }
                    self.payments.remove(i);
                    assert(self@ =~= old(self)@.remove(i as int));
                }
                Ok(())
            },
            None => Err(()),
        }
    }
}

} // verus!
