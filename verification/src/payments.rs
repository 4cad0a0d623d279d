//! The payments module of the subscription contract: the owner whitelists tokens,
//! users deposit whitelisted tokens and withdraw them.
use vstd::prelude::*;
use crate::address_ids::{id_of, id_or_insert_result, AddressToId};
use crate::subscription::{amount_or_zero, lemma_map_values_insert, SubscriptionError};
use crate::table::Table;
use crate::bignat::BigNat;
use crate::types::{copy_bytes, Address, AddressId, Amount, EsdtTokenPayment, TokenId};
use crate::unique_payments::{add_payment_result, payment_view, PaymentView, UniquePayments};

verus! {

/// The module's storage as mathematical values.
pub struct PaymentsState {
    /// Accepted tokens, in order of acceptance (`None` is EGLD).
    pub accepted_payment_tokens: Seq<Option<Seq<u8>>>,
    /// Users; the user at position `i` has id `i + 1`.
    pub user_ids: Seq<Address>,
    /// ESDT deposits per user id.
    pub user_deposited_payments: Map<AddressId, Seq<PaymentView>>,
    /// EGLD deposits per user id.
    pub user_deposited_egld: Map<AddressId, nat>,
}

/// The ESDT deposits of user `id` (empty when never written).
pub open spec fn payments_of(s: PaymentsState, id: AddressId) -> Seq<PaymentView> {
    if s.user_deposited_payments.contains_key(id) {
        s.user_deposited_payments[id]
    } else {
        Seq::empty()
    }
}

/// The accepted list after accepting `tokens` one after the other; a token already
/// accepted is not listed twice.
pub open spec fn accept_tokens(accepted: Seq<Option<Seq<u8>>>, tokens: Seq<Option<Seq<u8>>>) -> Seq<Option<Seq<u8>>>
    decreases tokens.len(),
{
    if tokens.len() == 0 {
        accepted
    } else {
        let before = accept_tokens(accepted, tokens.drop_last());
        if before.contains(tokens.last()) {
            before
        } else {
            before.push(tokens.last())
        }
    }
}

/// The state after the owner check and the acceptance of `tokens`; refused when any
/// of them is not a valid identifier.
pub open spec fn add_accepted_result(s: PaymentsState, caller_is_owner: bool, tokens: Seq<Option<Seq<u8>>>) -> Result<PaymentsState, SubscriptionError> {
    if !caller_is_owner {
        Err(SubscriptionError::NotOwner)
    } else {
        accept_valid_tokens_result(s, tokens)
    }
}

/// The state after accepting `tokens`, all of which must be valid identifiers.
pub open spec fn accept_valid_tokens_result(s: PaymentsState, tokens: Seq<Option<Seq<u8>>>) -> Result<PaymentsState, SubscriptionError> {
    if exists|i: int| 0 <= i < tokens.len() && !crate::types::token_is_valid(#[trigger] tokens[i]) {
        Err(SubscriptionError::InvalidToken)
    } else {
        Ok(PaymentsState { accepted_payment_tokens: accept_tokens(s.accepted_payment_tokens, tokens), ..s })
    }
}

/// The state after `amount` of `token` is credited to user `id`.
pub open spec fn add_user_payment_result(s: PaymentsState, id: AddressId, token: Option<Seq<u8>>, amount: nat) -> PaymentsState {
    match token {
        None => PaymentsState {
            user_deposited_egld: s.user_deposited_egld.insert(id, amount_or_zero(s.user_deposited_egld, id) + amount),
            ..s
        },
        Some(t) => {
            if !s.user_deposited_payments.contains_key(id) {
                PaymentsState { user_deposited_payments: s.user_deposited_payments.insert(id, seq![((t, 0u64), amount)]), ..s }
            } else {
                PaymentsState {
                    user_deposited_payments: s.user_deposited_payments.insert(
                        id,
                        add_payment_result(s.user_deposited_payments[id], ((t, 0u64), amount)),
                    ),
                    ..s
                }
            }
        },
    }
}

/// The state after `caller` deposits `amount` of `token` with nonce `nonce`.
pub open spec fn deposit_result(s: PaymentsState, caller: Address, token: Option<Seq<u8>>, nonce: u64, amount: nat) -> Result<PaymentsState, SubscriptionError> {
    if nonce != 0 {
        Err(SubscriptionError::FungibleTokenExpected)
    } else if !(amount > 0) {
        Err(SubscriptionError::NoPaymentAmount)
    } else if !s.accepted_payment_tokens.contains(token) {
        Err(SubscriptionError::InvalidPaymentToken)
    } else {
        match id_or_insert_result(s.user_ids, caller) {
            None => Err(SubscriptionError::IdOverflow),
            Some((ids, id)) => Ok(add_user_payment_result(PaymentsState { user_ids: ids, ..s }, id, token, amount)),
        }
    }
}

/// Some deposit entry holds ESDT `t` with at least `amount`.
pub open spec fn has_affordable(ps: Seq<PaymentView>, t: Seq<u8>, amount: nat) -> bool {
    exists|i: int| 0 <= i < ps.len() && (#[trigger] ps[i]).0.0 == t && ps[i].1 >= amount
}

/// Running result of a withdrawal: EGLD deposits, EGLD total sent, EGLD transfers,
/// ESDT payments sent.
pub type WithdrawTrace = (Map<AddressId, nat>, nat, Seq<nat>, Seq<PaymentView>);

/// The first `n` requests of a withdrawal by user `id` whose ESDT deposits are `ps`.
/// EGLD is sent and deducted when the deposit covers it; an ESDT is sent when some
/// deposit entry covers it (that entry is not lowered); other requests are skipped.
pub open spec fn withdraw_fold(
    egld: Map<AddressId, nat>,
    id: AddressId,
    ps: Seq<PaymentView>,
    requests: Seq<(Option<Seq<u8>>, nat)>,
    n: nat,
) -> WithdrawTrace
    decreases n,
{
    if n == 0 {
        (egld, 0, Seq::empty(), Seq::empty())
    } else {
        let prev = withdraw_fold(egld, id, ps, requests, (n - 1) as nat);
        let m = prev.0;
        let req = requests[n - 1];
        match req.0 {
            None => {
                let bal = amount_or_zero(m, id);
                if bal >= req.1 {
                    (m.insert(id, (bal - req.1) as nat), prev.1 + req.1, prev.2.push(req.1), prev.3)
                } else {
                    prev
                }
            },
            Some(t) => {
                if has_affordable(ps, t, req.1) {
                    (m, prev.1, prev.2, prev.3.push(((t, 0u64), req.1)))
                } else {
                    prev
                }
            },
        }
    }
}

/// The state, EGLD total, EGLD transfers and ESDT payments of a withdrawal by `caller`.
pub open spec fn withdraw_result(s: PaymentsState, caller: Address, requests: Seq<(Option<Seq<u8>>, nat)>) -> Result<(PaymentsState, nat, Seq<nat>, Seq<PaymentView>), SubscriptionError> {
    let id = id_of(s.user_ids, caller);
    if id == 0 {
        Err(SubscriptionError::UnknownAddress)
    } else {
        let ps = payments_of(s, id);
        let tr = withdraw_fold(s.user_deposited_egld, id, ps, requests, requests.len());
        Ok(
            (
                PaymentsState {
                    user_deposited_egld: tr.0,
                    user_deposited_payments: s.user_deposited_payments.insert(id, ps),
                    ..s
                },
                tr.1,
                tr.2,
                tr.3,
            ),
        )
    }
}

/// A withdrawal never sends more EGLD than was deposited: the total sent plus what is
/// left is the deposit before.
pub proof fn lemma_withdraw_egld_conserved(
    egld: Map<AddressId, nat>,
    id: AddressId,
    ps: Seq<PaymentView>,
    requests: Seq<(Option<Seq<u8>>, nat)>,
    n: nat,
)
    ensures
        withdraw_fold(egld, id, ps, requests, n).1 + amount_or_zero(withdraw_fold(egld, id, ps, requests, n).0, id)
            == amount_or_zero(egld, id),
        forall|k: AddressId| k != id ==> #[trigger] withdraw_fold(egld, id, ps, requests, n).0.contains_key(k) == egld.contains_key(k)
            && (egld.contains_key(k) ==> withdraw_fold(egld, id, ps, requests, n).0[k] == egld[k]),
    decreases n,
{
    if n > 0 {
        lemma_withdraw_egld_conserved(egld, id, ps, requests, (n - 1) as nat);
    }
}

/// The ESDT payments a withdrawal sends only grow as more requests are handled.
proof fn lemma_withdraw_outs_grow(
    egld: Map<AddressId, nat>,
    id: AddressId,
    ps: Seq<PaymentView>,
    requests: Seq<(Option<Seq<u8>>, nat)>,
    m: nat,
    n: nat,
    x: PaymentView,
)
    requires
        m <= n,
        withdraw_fold(egld, id, ps, requests, m).3.contains(x),
    ensures
        withdraw_fold(egld, id, ps, requests, n).3.contains(x),
    decreases n - m,
{
    if m < n {
        lemma_withdraw_outs_grow(egld, id, ps, requests, m, (n - 1) as nat, x);
        let prev = withdraw_fold(egld, id, ps, requests, (n - 1) as nat).3;
        let j = choose|j: int| 0 <= j < prev.len() && prev[j] == x;
        let next = withdraw_fold(egld, id, ps, requests, n).3;
        if next != prev {
            assert(next[j] == prev[j]);
        }
    }
}

/// An ESDT request is sent whenever some deposit entry of the caller, at any
/// position, holds that token with at least the amount asked.
pub proof fn law_withdraw_sends_covered_esdt(
    s: PaymentsState,
    caller: Address,
    requests: Seq<(Option<Seq<u8>>, nat)>,
    j: int,
    k: int,
    t: Seq<u8>,
)
    requires
        id_of(s.user_ids, caller) != 0,
        0 <= j < requests.len(),
        requests[j].0 == Some(t),
        0 <= k < payments_of(s, id_of(s.user_ids, caller)).len(),
        payments_of(s, id_of(s.user_ids, caller))[k].0.0 == t,
        payments_of(s, id_of(s.user_ids, caller))[k].1 >= requests[j].1,
    ensures
        withdraw_result(s, caller, requests) matches Ok((_, _, _, outs)) && outs.contains(((t, 0u64), requests[j].1)),
{
    let id = id_of(s.user_ids, caller);
    let ps = payments_of(s, id);
    let x = ((t, 0u64), requests[j].1);
    assert(ps[k].0.0 == t && ps[k].1 >= requests[j].1);
    assert(has_affordable(ps, t, requests[j].1));
    let after = withdraw_fold(s.user_deposited_egld, id, ps, requests, (j + 1) as nat).3;
    let before = withdraw_fold(s.user_deposited_egld, id, ps, requests, j as nat).3;
    assert(after == before.push(x));
    assert(after[before.len() as int] == x);
    lemma_withdraw_outs_grow(s.user_deposited_egld, id, ps, requests, (j + 1) as nat, requests.len(), x);
}

/// What a withdrawal hands back to the caller.
pub struct WithdrawOutcome {
    /// Total EGLD sent.
    pub egld_amount: Amount,
    /// Each EGLD transfer, in order.
    pub egld_transfers: Vec<Amount>,
    /// The ESDT payments sent in one multi-transfer.
    pub esdt_payments: Vec<EsdtTokenPayment>,
}

/// The payments module's storage.
pub struct PaymentsStorage {
    accepted_payment_tokens: Vec<TokenId>,
    user_id: AddressToId,
    user_deposited_payments: Table<AddressId, UniquePayments>,
    user_deposited_egld: Table<AddressId, Amount>,
}

impl PaymentsStorage {
    pub closed spec fn view(&self) -> PaymentsState {
        PaymentsState {
            accepted_payment_tokens: self.accepted_payment_tokens@.map_values(|t: TokenId| t@),
            user_ids: self.user_id@,
            user_deposited_payments: self.user_deposited_payments@.map_values(|u: UniquePayments| u@),
            user_deposited_egld: self.user_deposited_egld@.map_values(|a: BigNat| a@),
        }
    }

    pub closed spec fn wf(&self) -> bool {
        &&& self@.accepted_payment_tokens.no_duplicates()
        &&& self.user_id.wf()
        &&& self.user_deposited_payments.wf()
        &&& self.user_deposited_egld.wf()
        &&& forall|k: AddressId| #[trigger] self.user_deposited_payments@.contains_key(k) ==> self.user_deposited_payments@[k].wf()
    }

    /// Empty storage.
    pub fn new() -> (m: PaymentsStorage)
        ensures
            m.wf(),
            m@.accepted_payment_tokens == Seq::<Option<Seq<u8>>>::empty(),
            m@.user_ids == Seq::<Address>::empty(),
            m@.user_deposited_payments == Map::<AddressId, Seq<PaymentView>>::empty(),
            m@.user_deposited_egld == Map::<AddressId, nat>::empty(),
    {
        let m = PaymentsStorage {
            accepted_payment_tokens: Vec::new(),
            user_id: AddressToId::new(),
            user_deposited_payments: Table::new(),
            user_deposited_egld: Table::new(),
        };
        assert(m@.accepted_payment_tokens =~= Seq::<Option<Seq<u8>>>::empty());
        assert(m@.user_deposited_payments =~= Map::<AddressId, Seq<PaymentView>>::empty());
        assert(m@.user_deposited_egld =~= Map::<AddressId, nat>::empty());
        m
    }

    /// `token` is accepted.
    pub fn is_accepted(&self, token: &TokenId) -> (b: bool)
        ensures
            b == self@.accepted_payment_tokens.contains(token@),
    {
        let mut i: usize = 0;
        while i < self.accepted_payment_tokens.len()
            invariant
                i <= self.accepted_payment_tokens@.len(),
                forall|j: int| 0 <= j < i ==> self@.accepted_payment_tokens[j] != token@,
            decreases self.accepted_payment_tokens@.len() - i,
        {
            if self.accepted_payment_tokens[i].same(token) {
                assert(self@.accepted_payment_tokens[i as int] == token@);
                return true;
            }
            i = i + 1;
        }
        false
    }

    /// The accepted tokens, in order of acceptance.
    pub fn accepted_payment_tokens(&self) -> (v: Vec<TokenId>)
        ensures
            v@.map_values(|t: TokenId| t@) == self@.accepted_payment_tokens,
    {
        let mut v: Vec<TokenId> = Vec::new();
        let mut i: usize = 0;
        while i < self.accepted_payment_tokens.len()
            invariant
                i <= self.accepted_payment_tokens@.len(),
                v@.map_values(|t: TokenId| t@) =~= self@.accepted_payment_tokens.subrange(0, i as int),
            decreases self.accepted_payment_tokens@.len() - i,
        {
            let t = self.accepted_payment_tokens[i].duplicate();
            let ghost prev = v@;
            v.push(t);
            assert(v@.map_values(|t: TokenId| t@) =~= prev.map_values(|t: TokenId| t@).push(t@));
            i = i + 1;
        }
        assert(self@.accepted_payment_tokens.subrange(0, i as int) =~= self@.accepted_payment_tokens);
        v
    }

    /// The id of `address`, 0 when it never deposited.
    pub fn user_id(&self, address: &Address) -> (id: AddressId)
        requires
            self.wf(),
        ensures
            id == id_of(self@.user_ids, *address),
    {
        self.user_id.get_id(address)
    }

    /// The address of user `id`, if any.
    pub fn user_address(&self, id: AddressId) -> (a: Option<Address>)
        ensures
            a == crate::address_ids::address_of(self@.user_ids, id),
    {
        self.user_id.get_address(id)
    }

    /// The EGLD deposit of user `id` (0 when never written).
    pub fn user_deposited_egld(&self, id: AddressId) -> (a: Amount)
        requires
            self.wf(),
        ensures
            a@ == amount_or_zero(self@.user_deposited_egld, id),
    {
        match self.user_deposited_egld.get(&id) {
            Some(a) => a.dup(),
            None => BigNat::zero(),
        }
    }

    /// The ESDT deposits of user `id` (empty when never written).
    pub fn user_deposited_payments(&self, id: AddressId) -> (u: UniquePayments)
        requires
            self.wf(),
        ensures
            u.wf(),
            u@ == payments_of(self@, id),
    {
        match self.user_deposited_payments.get(&id) {
            Some(u) => u.duplicate(),
            None => UniquePayments::new(),
        }
    }

    /// Whether the ESDT deposits of user `id` were ever written.
    pub fn has_user_payments(&self, id: AddressId) -> (b: bool)
        requires
            self.wf(),
        ensures
            b == self@.user_deposited_payments.contains_key(id),
    {
        self.user_deposited_payments.contains_key(&id)
    }

    pub(crate) fn set_user_egld(&mut self, id: AddressId, amount: Amount)
        requires
            old(self).wf(),
        ensures
            final(self).wf(),
            final(self)@ == (PaymentsState { user_deposited_egld: old(self)@.user_deposited_egld.insert(id, amount@), ..old(self)@ }),
    {
        proof {
            lemma_map_values_insert(self.user_deposited_egld@, id, amount, |a: BigNat| a@);
        }
        self.user_deposited_egld.insert(id, amount);
    }

    pub(crate) fn set_user_payments(&mut self, id: AddressId, payments: UniquePayments)
        requires
            old(self).wf(),
            payments.wf(),
        ensures
            final(self).wf(),
            final(self)@ == (PaymentsState {
                user_deposited_payments: old(self)@.user_deposited_payments.insert(id, payments@),
                ..old(self)@
            }),
    {
        proof {
            lemma_map_values_insert(self.user_deposited_payments@, id, payments, |u: UniquePayments| u@);
        }
        self.user_deposited_payments.insert(id, payments);
    }

    fn insert_accepted(&mut self, token: &TokenId)
        requires
            old(self).wf(),
        ensures
            final(self).wf(),
            final(self)@ == (PaymentsState {
                accepted_payment_tokens: if old(self)@.accepted_payment_tokens.contains(token@) {
                    old(self)@.accepted_payment_tokens
                } else {
                    old(self)@.accepted_payment_tokens.push(token@)
                },
                ..old(self)@
            }),
    {
        if !self.is_accepted(token) {
            let ghost prev = self@.accepted_payment_tokens;
            let t = token.duplicate();
            self.accepted_payment_tokens.push(t);
            assert(self@.accepted_payment_tokens =~= prev.push(token@));
        }
    }

    /// Accepts `tokens`, all of which must be valid identifiers.
    pub fn accept_valid_tokens(&mut self, tokens: &Vec<TokenId>) -> (r: Result<(), SubscriptionError>)
        requires
            old(self).wf(),
        ensures
            final(self).wf(),
            match accept_valid_tokens_result(old(self)@, tokens@.map_values(|t: TokenId| t@)) {
                Ok(s) => r == Ok::<(), SubscriptionError>(()) && final(self)@ == s,
                Err(e) => r == Err::<(), SubscriptionError>(e) && *final(self) == *old(self),
            },
    {
        let ghost tv = tokens@.map_values(|t: TokenId| t@);
        let mut i: usize = 0;
        while i < tokens.len()
            invariant
                self.wf(),
                tv == tokens@.map_values(|t: TokenId| t@),
                i <= tokens@.len(),
                forall|j: int| 0 <= j < i ==> crate::types::token_is_valid(#[trigger] tv[j]),
            decreases tokens@.len() - i,
        {
            if !tokens[i].is_valid() {
                assert(!crate::types::token_is_valid(tv[i as int]));
                return Err(SubscriptionError::InvalidToken);
            }
            i = i + 1;
        }
        let ghost s0 = self@;
        let mut k: usize = 0;
        while k < tokens.len()
            invariant
                self.wf(),
                tv == tokens@.map_values(|t: TokenId| t@),
                k <= tokens@.len(),
                self@ == (PaymentsState {
                    accepted_payment_tokens: accept_tokens(s0.accepted_payment_tokens, tv.subrange(0, k as int)),
                    ..s0
                }),
            decreases tokens@.len() - k,
        {
            assert(tv.subrange(0, k + 1).drop_last() =~= tv.subrange(0, k as int));
            self.insert_accepted(&tokens[k]);
            k = k + 1;
        }
        assert(tv.subrange(0, k as int) =~= tv);
        Ok(())
    }

    /// The owner accepts `tokens` as payment; every one must be a valid identifier.
    pub fn add_accepted_payment_tokens(&mut self, caller_is_owner: bool, tokens: &Vec<TokenId>) -> (r: Result<(), SubscriptionError>)
        requires
            old(self).wf(),
        ensures
            final(self).wf(),
            match add_accepted_result(old(self)@, caller_is_owner, tokens@.map_values(|t: TokenId| t@)) {
                Ok(s) => r == Ok::<(), SubscriptionError>(()) && final(self)@ == s,
                Err(e) => r == Err::<(), SubscriptionError>(e) && *final(self) == *old(self),
            },
    {
        if !caller_is_owner {
            return Err(SubscriptionError::NotOwner);
        }
        self.accept_valid_tokens(tokens)
    }

    /// Credits `amount` of `token` to user `id`.
    pub fn add_user_payment(&mut self, id: AddressId, token: &TokenId, amount: Amount)
        requires
            old(self).wf(),
        ensures
            final(self).wf(),
            final(self)@ == add_user_payment_result(old(self)@, id, token@, amount@),
    {
        match token {
            TokenId::Egld => {
                let e = self.user_deposited_egld(id);
                self.set_user_egld(id, e.add(&amount));
            },
            TokenId::Esdt(bytes) => {
                let payment = EsdtTokenPayment::new(copy_bytes(bytes), 0, amount);
                match self.user_deposited_payments.get(&id) {
                    None => {
                        let single = UniquePayments::from_single_item(payment);
                        self.set_user_payments(id, single);
                    },
                    Some(u) => {
                        let mut updated = u.duplicate();
                        updated.add_payment(payment);
                        self.set_user_payments(id, updated);
                    },
                }
            },
        }
    }

    /// `caller` deposits `amount` of `token` (nonce `nonce`); a new depositor gets the
    /// next user id.
    pub fn deposit(&mut self, caller: &Address, token: &TokenId, nonce: u64, amount: Amount) -> (r: Result<(), SubscriptionError>)
        requires
            old(self).wf(),
        ensures
            final(self).wf(),
            match deposit_result(old(self)@, *caller, token@, nonce, amount@) {
                Ok(s) => r == Ok::<(), SubscriptionError>(()) && final(self)@ == s,
                Err(e) => r == Err::<(), SubscriptionError>(e) && *final(self) == *old(self),
            },
    {
        if nonce != 0 {
            return Err(SubscriptionError::FungibleTokenExpected);
        }
        if amount.is_zero() {
            return Err(SubscriptionError::NoPaymentAmount);
        }
        if !self.is_accepted(token) {
            return Err(SubscriptionError::InvalidPaymentToken);
        }
        let known = self.user_id.get_id(caller);
        if known != 0 {
            self.add_user_payment(known, token, amount);
            return Ok(());
        }
        let n = self.user_id.len() as u64;
        if n == u64::MAX {
            return Err(SubscriptionError::IdOverflow);
        }
        let next_id = n + 1;
        let id = self.user_id.get_id_or_insert(caller);
        assert(id == Some(next_id));
        self.add_user_payment(next_id, token, amount);
        Ok(())
    }
}

/// Whether some entry of `ps` holds ESDT `t` with at least `amount`.
fn find_affordable(ps: &UniquePayments, t: &Vec<u8>, amount: &Amount) -> (b: bool)
    ensures
        b == has_affordable(ps@, t@, amount@),
{
    let mut i: usize = 0;
    while i < ps.len()
        invariant
            i <= ps@.len(),
            forall|j: int| 0 <= j < i ==> !((#[trigger] ps@[j]).0.0 == t@ && ps@[j].1 >= amount@),
        decreases ps@.len() - i,
    {
        let p = ps.get(i);
        if crate::types::bytes_equal(&p.token_identifier, t) && amount.le(&p.amount) {
            assert(ps@[i as int].0.0 == t@ && ps@[i as int].1 >= amount@);
            return true;
        }
        i = i + 1;
    }
    false
}

impl PaymentsStorage {
    /// `caller` asks for the listed (token, amount) pairs back. EGLD is sent and
    /// deducted when the deposit covers it; an ESDT is sent when some deposit entry
    /// covers it, without that entry being lowered; other pairs are skipped.
    pub fn withdraw(&mut self, caller: &Address, requests: &Vec<(TokenId, Amount)>) -> (r: Result<WithdrawOutcome, SubscriptionError>)
        requires
            old(self).wf(),
        ensures
            final(self).wf(),
            match withdraw_result(old(self)@, *caller, requests@.map_values(|q: (TokenId, Amount)| (q.0@, q.1@))) {
                Ok((s, total, sends, outs)) => r matches Ok(o) && o.egld_amount@ == total
                    && o.egld_transfers@.map_values(|a: Amount| a@) == sends
                    && o.esdt_payments@.map_values(|p: EsdtTokenPayment| payment_view(p)) == outs && final(self)@ == s,
                Err(e) => r matches Err(x) && x == e && *final(self) == *old(self),
            },
    {
        let id = self.user_id.get_id(caller);
        if id == 0 {
            return Err(SubscriptionError::UnknownAddress);
        }
        let ps = self.user_deposited_payments(id);
        let ghost rv = requests@.map_values(|q: (TokenId, Amount)| (q.0@, q.1@));
        let ghost s0 = self@;
        let mut egld_amount = BigNat::zero();
        let mut egld_transfers: Vec<Amount> = Vec::new();
        let mut output_payments: Vec<EsdtTokenPayment> = Vec::new();
        let mut i: usize = 0;
        while i < requests.len()
            invariant
                self.wf(),
                rv == requests@.map_values(|q: (TokenId, Amount)| (q.0@, q.1@)),
                i <= requests@.len(),
                ps@ == payments_of(s0, id),
                ps.wf(),
                self@ == (PaymentsState { user_deposited_egld: withdraw_fold(s0.user_deposited_egld, id, ps@, rv, i as nat).0, ..s0 }),
                egld_amount@ == withdraw_fold(s0.user_deposited_egld, id, ps@, rv, i as nat).1,
                egld_transfers@.map_values(|a: Amount| a@) == withdraw_fold(s0.user_deposited_egld, id, ps@, rv, i as nat).2,
                output_payments@.map_values(|p: EsdtTokenPayment| payment_view(p)) == withdraw_fold(
                    s0.user_deposited_egld,
                    id,
                    ps@,
                    rv,
                    i as nat,
                ).3,
            decreases requests@.len() - i,
        {
            let req = &requests[i];
            proof {
                assert(rv[i as int] == (req.0@, req.1@));
            }
            match &req.0 {
                TokenId::Egld => {
                    let bal = self.user_deposited_egld(id);
                    match bal.checked_sub(&req.1) {
                        Some(rest) => {
                            self.set_user_egld(id, rest);
                            egld_amount = egld_amount.add(&req.1);
                            let ghost prev = egld_transfers@;
                            let sent = req.1.dup();
                            egld_transfers.push(sent);
                            assert(egld_transfers@.map_values(|a: Amount| a@) =~= prev.map_values(|a: Amount| a@).push(
                                sent@,
                            ));
                        },
                        None => {},
                    }
                },
                TokenId::Esdt(bytes) => {
                    if find_affordable(&ps, bytes, &req.1) {
                        let ghost prev = output_payments@;
                        let p = EsdtTokenPayment::new(copy_bytes(bytes), 0, req.1.dup());
                        output_payments.push(p);
                        assert(output_payments@.map_values(|p: EsdtTokenPayment| payment_view(p)) =~= prev.map_values(
                            |p: EsdtTokenPayment| payment_view(p),
                        ).push(payment_view(p)));
                    }
                },
            }
            i = i + 1;
        }
        assert(rv.len() == requests@.len());
        self.set_user_payments(id, ps);
        Ok(WithdrawOutcome { egld_amount, egld_transfers, esdt_payments: output_payments })
    }
}

} // verus!
