//! The periodic payment of the subscription contract: a registered service takes one
//! month's price for one of its services out of a subscribed user's deposit.
use vstd::prelude::*;
use crate::address_ids::{address_of, id_of};
use crate::payments::{payments_of, PaymentsStorage, PaymentsState};
use crate::service::{periodicity_of, Periodicity, ServiceInfoView, ServiceStorage, ServiceState};
use crate::subscription::{amount_or_zero, deposited_amount, lemma_deposited_amount_map, SubscriptionError};
use crate::table::{keys_distinct, lemma_index_of_unique, lemma_update_view, seq_has_key, seq_index_of};
use crate::table::Table;
use crate::bignat::BigNat;
use crate::types::{copy_bytes, Address, AddressId, Amount, EgldOrEsdtTokenPayment, EsdtTokenPayment, TokenId};
use crate::unique_payments::{withdraw_payment_result, PaymentView};

verus! {

/// An epoch number of the chain.
pub type Epoch = u64;

pub const DAILY_EPOCH: Epoch = 1;

pub const WEEKLY_EPOCH: Epoch = 7;

/// Epochs between two payments of the same subscription.
pub const MONTHLY_EPOCH: Epoch = 30;

/// An outcome that is returned to the caller instead of failing the call.
#[derive(Debug, PartialEq, Eq, Clone)]
pub enum CustomScResult<T, E> {
    Success(T),
    Failure(E),
}

impl<T, E> CustomScResult<T, E> {
    pub fn is_err(&self) -> (b: bool)
        ensures
            b == (self is Failure),
    {
        match self {
            CustomScResult::Success(_) => false,
            CustomScResult::Failure(_) => true,
        }
    }

    /// The success value; only for a success.
    pub fn unwrap_unchecked(self) -> (t: T)
        requires
            self is Success,
        ensures
            self == CustomScResult::<T, E>::Success(t),
    {
        match self {
            CustomScResult::Success(t) => t,
            CustomScResult::Failure(_) => vstd::pervasive::unreached(),
        }
    }
}

/// A payment taken out of a deposit, as a value: (token, nonce, amount).
pub type TakenPayment = (Option<Seq<u8>>, u64, nat);

/// What a payment outcome says: the payment taken, or `None` for a failure.
pub open spec fn taken_view(r: CustomScResult<EgldOrEsdtTokenPayment, ()>) -> Option<TakenPayment> {
    match r {
        CustomScResult::Success(p) => Some(p@),
        CustomScResult::Failure(_) => None,
    }
}

/// Periods of the given periodicity in one month.
pub open spec fn multiplier_of(p: Periodicity) -> nat {
    match p {
        Periodicity::Daily => (MONTHLY_EPOCH / DAILY_EPOCH) as nat,
        Periodicity::Weekly => (MONTHLY_EPOCH / WEEKLY_EPOCH) as nat,
        Periodicity::Monthly => 1,
        Periodicity::NotSubscribed => 0,
    }
}

/// The deposits and the payment after taking `amount` of `token` from user `id`.
/// The deposit is written back whether or not it covered the amount.
pub open spec fn substract_specific_result(p: PaymentsState, id: AddressId, token: Option<Seq<u8>>, amount: nat) -> (PaymentsState, Option<TakenPayment>) {
    match token {
        None => {
            let v = amount_or_zero(p.user_deposited_egld, id);
            if v < amount {
                (PaymentsState { user_deposited_egld: p.user_deposited_egld.insert(id, v), ..p }, None)
            } else {
                (
                    PaymentsState { user_deposited_egld: p.user_deposited_egld.insert(id, (v - amount) as nat), ..p },
                    Some((None, 0u64, amount)),
                )
            }
        },
        Some(t) => {
            let ps = payments_of(p, id);
            match withdraw_payment_result(ps, ((t, 0u64), amount)) {
                None => (PaymentsState { user_deposited_payments: p.user_deposited_payments.insert(id, ps), ..p }, None),
                Some(ps2) => (
                    PaymentsState { user_deposited_payments: p.user_deposited_payments.insert(id, ps2), ..p },
                    Some((Some(t), 0u64, amount)),
                ),
            }
        },
    }
}

/// The first position from `i` on whose token's price is known and covered by the
/// deposit entry.
pub open spec fn first_affordable(ps: Seq<PaymentView>, prices: Seq<Option<nat>>, i: int) -> Option<int>
    decreases ps.len() - i,
{
    if i < 0 || i >= ps.len() {
        None
    } else if i < prices.len() && prices[i] is Some && !(prices[i]->Some_0 > ps[i].1) {
        Some(i)
    } else {
        first_affordable(ps, prices, i + 1)
    }
}

/// The deposits and the payment after user `id` pays with the first deposited token
/// whose price (`prices[i]` for the `i`-th deposit entry; `None` or missing when the
/// price query failed) the entry covers. The price is what is taken.
pub open spec fn substract_any_result(p: PaymentsState, id: AddressId, prices: Seq<Option<nat>>) -> (PaymentsState, Option<TakenPayment>) {
    if !p.user_deposited_payments.contains_key(id) {
        (p, None)
    } else {
        let ps = p.user_deposited_payments[id];
        match first_affordable(ps, prices, 0) {
            None => (p, None),
            Some(i) => {
                let price = prices[i]->Some_0;
                (
                    PaymentsState {
                        user_deposited_payments: p.user_deposited_payments.insert(id, ps.update(i, (ps[i].0, (ps[i].1 - price) as nat))),
                        ..p
                    },
                    Some((Some(ps[i].0.0), 0u64, price)),
                )
            }
        }
    }
}

/// The services of provider `service_id` (empty when never written).
pub open spec fn services_of(s: ServiceState, service_id: AddressId) -> Seq<ServiceInfoView> {
    if s.service_info.contains_key(service_id) {
        s.service_info[service_id]
    } else {
        Seq::empty()
    }
}

/// The deposits, last-payment epochs and outcome after the service `caller` asks for
/// the payment of user `user_id` for its service `service_index` at `current_epoch`.
pub open spec fn substract_payment_result(
    p: PaymentsState,
    svc: ServiceState,
    epochs: Map<(AddressId, AddressId, usize), Epoch>,
    caller: Address,
    service_index: usize,
    user_id: AddressId,
    current_epoch: Epoch,
    prices: Seq<Option<nat>>,
) -> Result<(PaymentsState, Map<(AddressId, AddressId, usize), Epoch>, Option<TakenPayment>), SubscriptionError> {
    let service_id = id_of(svc.service_ids, caller);
    let key = (user_id, service_id, service_index);
    let last = if epochs.contains_key(key) {
        epochs[key]
    } else {
        0
    };
    if service_id == 0 {
        Err(SubscriptionError::UnknownAddress)
    } else if last > 0 && !(last + MONTHLY_EPOCH <= current_epoch) {
        Err(SubscriptionError::TooEarly)
    } else if address_of(p.user_ids, user_id) is None {
        Ok((p, epochs, None))
    } else if periodicity_of(svc, user_id, service_id, service_index) == Periodicity::NotSubscribed {
        Ok((p, epochs, None))
    } else if service_index >= services_of(svc, service_id).len() {
        Err(SubscriptionError::ServiceIndexOutOfRange)
    } else {
        let info = services_of(svc, service_id)[service_index as int];
        let total = info.2 * multiplier_of(periodicity_of(svc, user_id, service_id, service_index));
        let res = match info.1 {
            Some(t) => substract_specific_result(p, user_id, t, total),
            None => substract_any_result(p, user_id, prices),
        };
        Ok((res.0, epochs.insert(key, current_epoch), res.1))
    }
}

/// The price answers as values.
pub open spec fn prices_view(prices: Seq<Option<Amount>>) -> Seq<Option<nat>> {
    prices.map_values(
        |o: Option<Amount>|
            match o {
                Some(a) => Some(a@),
                None => None,
            },
    )
}

proof fn lemma_first_affordable_skip(ps: Seq<PaymentView>, prices: Seq<Option<nat>>, i: int)
    requires
        0 <= i <= ps.len(),
        forall|j: int|
            0 <= j < i ==> !(j < prices.len() && prices[j] is Some && !(prices[j]->Some_0 > (#[trigger] ps[j]).1)),
    ensures
        first_affordable(ps, prices, 0) == first_affordable(ps, prices, i),
    decreases i,
{
    if i > 0 {
        lemma_first_affordable_skip(ps, prices, i - 1);
        assert(!(i - 1 < prices.len() && prices[i - 1] is Some && !(prices[i - 1]->Some_0 > ps[i - 1].1)));
    }
}

/// Whether the price answer `price` for the deposit entry `p` lets the entry pay:
/// the query succeeded and the price is not above the deposited amount.
pub fn price_covers(p: &EsdtTokenPayment, price: &Option<Amount>) -> (b: bool)
    ensures
        b == (price matches Some(x) && !(x@ > p.amount@)),
{
    match price {
        Some(x) => x.le(&p.amount),
        None => false,
    }
}

/// For a service that takes any token, the payment comes from the first deposit entry
/// whose quoted price it covers, at whatever position: that entry's token pays that
/// price and the entry is lowered by it, nothing else changes.
pub proof fn law_any_token_pays_first_covered_entry(p: PaymentsState, id: AddressId, prices: Seq<Option<nat>>, k: int)
    requires
        p.user_deposited_payments.contains_key(id),
        0 <= k < p.user_deposited_payments[id].len(),
        k < prices.len(),
        prices[k] is Some,
        prices[k]->Some_0 <= p.user_deposited_payments[id][k].1,
        forall|j: int|
            0 <= j < k ==> !(j < prices.len() && prices[j] is Some && prices[j]->Some_0
                <= #[trigger] p.user_deposited_payments[id][j].1),
    ensures
        ({
            let ps = p.user_deposited_payments[id];
            let price = prices[k]->Some_0;
            substract_any_result(p, id, prices) == (
                PaymentsState {
                    user_deposited_payments: p.user_deposited_payments.insert(
                        id,
                        ps.update(k, (ps[k].0, (ps[k].1 - price) as nat)),
                    ),
                    ..p
                },
                Some((Some(ps[k].0.0), 0u64, price)),
            )
        }),
{
    let ps = p.user_deposited_payments[id];
    assert forall|j: int|
        0 <= j < k implies !(j < prices.len() && prices[j] is Some && !(prices[j]->Some_0 > (#[trigger] ps[j]).1)) by {
        assert(ps[j] == p.user_deposited_payments[id][j]);
    }
    lemma_first_affordable_skip(ps, prices, k);
}

/// For a service that takes any token, when no deposit entry has a known price that it
/// covers, nothing is taken and the deposits stay as they were.
pub proof fn law_any_token_without_covered_entry_takes_nothing(p: PaymentsState, id: AddressId, prices: Seq<Option<nat>>)
    requires
        p.user_deposited_payments.contains_key(id) ==> forall|j: int|
            0 <= j < p.user_deposited_payments[id].len() ==> !(j < prices.len() && prices[j] is Some && prices[j]->Some_0
                <= #[trigger] p.user_deposited_payments[id][j].1),
    ensures
        substract_any_result(p, id, prices) == (p, None::<TakenPayment>),
{
    if p.user_deposited_payments.contains_key(id) {
        let ps = p.user_deposited_payments[id];
        assert forall|j: int|
            0 <= j < ps.len() implies !(j < prices.len() && prices[j] is Some && !(prices[j]->Some_0 > (
            #[trigger] ps[j]).1)) by {
            assert(ps[j] == p.user_deposited_payments[id][j]);
        }
        lemma_first_affordable_skip(ps, prices, ps.len() as int);
    }
}

/// A user subscribed monthly to a service priced in token `t`, whose deposit of `t`
/// covers the price, pays it when the service first asks: the payment is the price in
/// `t`, the user holds the price less of `t`, and the epoch is recorded.
pub proof fn law_subscribed_user_pays_the_price(
    p: PaymentsState,
    svc: ServiceState,
    epochs: Map<(AddressId, AddressId, usize), Epoch>,
    caller: Address,
    i: usize,
    u: AddressId,
    epoch: Epoch,
    prices: Seq<Option<nat>>,
    t: Seq<u8>,
    k: int,
)
    requires
        id_of(svc.service_ids, caller) != 0,
        !epochs.contains_key((u, id_of(svc.service_ids, caller), i)),
        address_of(p.user_ids, u) is Some,
        svc.subscription_type.contains_key((u, id_of(svc.service_ids, caller), i)),
        svc.subscription_type[(u, id_of(svc.service_ids, caller), i)] == Periodicity::Monthly,
        i < services_of(svc, id_of(svc.service_ids, caller)).len(),
        services_of(svc, id_of(svc.service_ids, caller))[i as int].1 == Some(Some(t)),
        p.user_deposited_payments.contains_key(u),
        keys_distinct(p.user_deposited_payments[u]),
        0 <= k < p.user_deposited_payments[u].len(),
        p.user_deposited_payments[u][k].0 == (t, 0u64),
        p.user_deposited_payments[u][k].1 >= services_of(svc, id_of(svc.service_ids, caller))[i as int].2,
    ensures
        ({
            let sid = id_of(svc.service_ids, caller);
            let price = services_of(svc, sid)[i as int].2;
            let r = substract_payment_result(p, svc, epochs, caller, i, u, epoch, prices);
            &&& r matches Ok((p2, e2, Some(taken)))
            &&& taken == (Some(t), 0u64, price)
            &&& e2.contains_key((u, sid, i)) && e2[(u, sid, i)] == epoch
            &&& deposited_amount(payments_of(r->Ok_0.0, u), (t, 0u64)) + price == p.user_deposited_payments[u][k].1
        }),
{
    let sid = id_of(svc.service_ids, caller);
    let price = services_of(svc, sid)[i as int].2;
    let ps = p.user_deposited_payments[u];
    let key = (t, 0u64);
    assert(periodicity_of(svc, u, sid, i) == Periodicity::Monthly);
    assert(price * multiplier_of(Periodicity::Monthly) == price);
    assert(seq_has_key(ps, key));
    lemma_index_of_unique(ps, k);
    let ps2 = withdraw_payment_result(ps, (key, price))->Some_0;
    lemma_deposited_amount_map(ps, key);
    lemma_deposited_amount_map(ps2, key);
    if ps[k].1 - price > 0 {
        lemma_update_view(ps, k, (ps[k].1 - price) as nat);
    } else {
        let rm = ps.remove(k);
        assert(ps2 == rm);
        if seq_has_key(rm, key) {
            let j = choose|j: int| #![trigger rm[j]] 0 <= j < rm.len() && rm[j].0 == key;
            let j2 = if j < k {
                j
            } else {
                j + 1
            };
            assert(rm[j] == ps[j2]);
            assert(ps[j2].0 == ps[k].0);
            assert(false);
        }
    }
}

/// The module's storage: the epoch of the last payment per (user, service, index).
pub struct SubstractStorage {
    user_last_action_epoch: Table<(AddressId, AddressId, usize), Epoch>,
}

impl SubstractStorage {
    pub closed spec fn view(&self) -> Map<(AddressId, AddressId, usize), Epoch> {
        self.user_last_action_epoch@
    }

    pub closed spec fn wf(&self) -> bool {
        self.user_last_action_epoch.wf()
    }

    /// Empty storage.
    pub fn new() -> (m: SubstractStorage)
        ensures
            m.wf(),
            m@ == Map::<(AddressId, AddressId, usize), Epoch>::empty(),
    {
        SubstractStorage { user_last_action_epoch: Table::new() }
    }

    /// The epoch of the last payment of user `user_id` to service `service_index` of
    /// provider `service_id` (0 when never written).
    pub fn user_last_action_epoch(&self, user_id: AddressId, service_id: AddressId, service_index: usize) -> (e: Epoch)
        requires
            self.wf(),
        ensures
            e == (if self@.contains_key((user_id, service_id, service_index)) {
                self@[(user_id, service_id, service_index)]
            } else {
                0
            }),
    {
        match self.user_last_action_epoch.get(&(user_id, service_id, service_index)) {
            Some(e) => *e,
            None => 0,
        }
    }

    pub fn substract_specific_token(
        payments: &mut PaymentsStorage,
        user_id: AddressId,
        token_id: &TokenId,
        amount: Amount,
    ) -> (r: CustomScResult<EgldOrEsdtTokenPayment, ()>)
        requires
            old(payments).wf(),
        ensures
            final(payments).wf(),
            (final(payments)@, taken_view(r)) == substract_specific_result(old(payments)@, user_id, token_id@, amount@),
    {
        match token_id {
            TokenId::Egld => {
                let value = payments.user_deposited_egld(user_id);
                match value.checked_sub(&amount) {
                    None => {
                        payments.set_user_egld(user_id, value);
                        CustomScResult::Failure(())
                    },
                    Some(rest) => {
                        payments.set_user_egld(user_id, rest);
                        CustomScResult::Success(EgldOrEsdtTokenPayment::new(TokenId::egld(), 0, amount))
                    },
                }
            },
            TokenId::Esdt(bytes) => {
                let payment = EsdtTokenPayment::new(copy_bytes(bytes), 0, amount.dup());
                let mut user_payments = payments.user_deposited_payments(user_id);
                let raw_result = user_payments.withdraw_payments(&payment);
                payments.set_user_payments(user_id, user_payments);
                match raw_result {
                    Ok(()) => CustomScResult::Success(EgldOrEsdtTokenPayment::new(TokenId::Esdt(copy_bytes(bytes)), 0, amount)),
                    Err(()) => CustomScResult::Failure(()),
                }
            },
        }
    }

    pub fn substract_any_token(
        payments: &mut PaymentsStorage,
        user_id: AddressId,
        prices: &Vec<Option<Amount>>,
    ) -> (r: CustomScResult<EgldOrEsdtTokenPayment, ()>)
        requires
            old(payments).wf(),
        ensures
            final(payments).wf(),
            (final(payments)@, taken_view(r)) == substract_any_result(old(payments)@, user_id, prices_view(prices@)),
    {
        let ghost pv = prices_view(prices@);
        if !payments.has_user_payments(user_id) {
            return CustomScResult::Failure(());
        }
        let mut user_tokens = payments.user_deposited_payments(user_id);
        let n = user_tokens.len();
        let mut index: usize = 0;
        while index < n
            invariant
                payments.wf(),
                payments@ == old(payments)@,
                payments@.user_deposited_payments.contains_key(user_id),
                user_tokens.wf(),
                user_tokens@ == payments@.user_deposited_payments[user_id],
                n == user_tokens@.len(),
                index <= n,
                pv == prices_view(prices@),
                forall|j: int|
                    0 <= j < index ==> !(j < pv.len() && pv[j] is Some && !(pv[j]->Some_0 > (
                    #[trigger] user_tokens@[j]).1)),
            decreases n - index,
        {
            let payment = user_tokens.get(index);
            if index < prices.len() {
                match &prices[index] {
                    Some(price) => {
                        assert(pv[index as int] == Some(price@));
                        match payment.amount.checked_sub(price) {
                            Some(rest) => {
                                proof {
                                    lemma_first_affordable_skip(user_tokens@, pv, index as int);
                                }
                                let token = copy_bytes(&payment.token_identifier);
                                user_tokens.set_amount(index, rest);
                                payments.set_user_payments(user_id, user_tokens);
                                return CustomScResult::Success(EgldOrEsdtTokenPayment::new(TokenId::Esdt(token), 0, price.dup()));
                            },
                            None => {},
                        }
                    },
                    None => {
                        assert(pv[index as int] is None);
                    },
                }
            }
            index = index + 1;
        }
        proof {
            lemma_first_affordable_skip(user_tokens@, pv, n as int);
        }
        CustomScResult::Failure(())
    }

    /// The service `caller` takes the monthly price of its service `service_index`
    /// from the deposit of user `user_id` at epoch `current_epoch`. `prices[i]` is the
    /// price query's answer for the user's `i`-th deposited token (`None` when it
    /// failed); it is read only for services that accept any token. The returned
    /// payment, on success, is sent to `caller`.
    pub fn substract_payment(
        &mut self,
        payments: &mut PaymentsStorage,
        services: &ServiceStorage,
        caller: &Address,
        service_index: usize,
        user_id: AddressId,
        current_epoch: Epoch,
        prices: &Vec<Option<Amount>>,
    ) -> (r: Result<CustomScResult<EgldOrEsdtTokenPayment, ()>, SubscriptionError>)
        requires
            old(self).wf(),
            old(payments).wf(),
            services.wf(),
        ensures
            final(self).wf(),
            final(payments).wf(),
            match substract_payment_result(
                old(payments)@,
                services@,
                old(self)@,
                *caller,
                service_index,
                user_id,
                current_epoch,
                prices_view(prices@),
            ) {
                Ok((p, epochs, taken)) => r matches Ok(x) && taken_view(x) == taken && final(payments)@ == p && final(self)@ == epochs,
                Err(e) => r == Err::<CustomScResult<EgldOrEsdtTokenPayment, ()>, SubscriptionError>(e)
                    && *final(payments) == *old(payments) && *final(self) == *old(self),
            },
    {
        let service_id = services.service_id(caller);
        if service_id == 0 {
            return Err(SubscriptionError::UnknownAddress);
        }
        let last_action_epoch = self.user_last_action_epoch(user_id, service_id, service_index);
        if last_action_epoch > 0 {
            if last_action_epoch > u64::MAX - MONTHLY_EPOCH || last_action_epoch + MONTHLY_EPOCH > current_epoch {
                return Err(SubscriptionError::TooEarly);
            }
        }
        let opt_user_address = payments.user_address(user_id);
        if opt_user_address.is_none() {
            return Ok(CustomScResult::Failure(()));
        }
        let subscription_type = services.subscription_type(user_id, service_id, service_index);
        let multiplier: u64 = match subscription_type {
            Periodicity::Daily => MONTHLY_EPOCH / DAILY_EPOCH,
            Periodicity::Weekly => MONTHLY_EPOCH / WEEKLY_EPOCH,
            Periodicity::Monthly => 1,
            Periodicity::NotSubscribed => {
                return Ok(CustomScResult::Failure(()));
            },
        };
        let infos = services.service_info(service_id);
        if service_index >= infos.len() {
            return Err(SubscriptionError::ServiceIndexOutOfRange);
        }
        let service_info = &infos[service_index];
        proof {
            assert(crate::service::service_info_view(*service_info) == services_of(services@, service_id)[service_index as int]);
        }
        let substract_result = match &service_info.opt_payment_token {
            Some(token_id) => {
                let total = service_info.amount.mul_u64(multiplier);
                Self::substract_specific_token(payments, user_id, token_id, total)
            },
            None => Self::substract_any_token(payments, user_id, prices),
        };
        self.user_last_action_epoch.insert((user_id, service_id, service_index), current_epoch);
        Ok(substract_result)
    }
}

} // verus!
