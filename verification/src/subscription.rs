//! The subscription contract: users deposit accepted tokens, services register, and a
//! service takes its periodic payment out of a subscribed user's deposit.
use vstd::prelude::*;
use crate::address_ids::{id_of, id_or_insert_result, lemma_id_or_insert};
use crate::payments::{lemma_withdraw_egld_conserved, withdraw_fold, payments_of, accept_valid_tokens_result, add_accepted_result, add_user_payment_result, deposit_result, withdraw_result, PaymentsStorage, PaymentsState, WithdrawOutcome};
use crate::service::{periodicity_of, register_service_result, service_info_view, Periodicity, ServiceInfo, ServiceInfoView, ServiceStorage, ServiceState};
use crate::substract_payments::{multiplier_of, services_of, TakenPayment, MONTHLY_EPOCH, substract_payment_result, taken_view, prices_view, CustomScResult, Epoch, SubstractStorage};
use crate::types::{Address, AddressId, Amount, EgldOrEsdtTokenPayment, EsdtTokenPayment, TokenId};
use crate::unique_payments::{add_payment_result, payment_view, PaymentView, UniquePayments};
use crate::table::{keys_distinct, lemma_index_of_unique, lemma_push_view, lemma_update_view, seq_has_key, seq_index_of, seq_to_map};

verus! {

/// Why a subscription call is refused.
#[derive(Clone, Copy, Debug, PartialEq, Eq)]
pub enum SubscriptionError {
    /// The price query address given at deployment is not a contract.
    InvalidPriceQueryAddress,
    /// An owner-only endpoint was called by someone else.
    NotOwner,
    /// A token to accept is not a valid identifier.
    InvalidToken,
    /// The payment is an NFT or SFT.
    FungibleTokenExpected,
    /// The payment is zero.
    NoPaymentAmount,
    /// The paid token is not accepted.
    InvalidPaymentToken,
    /// The caller has no id.
    UnknownAddress,
    /// No more ids can be handed out.
    IdOverflow,
    /// A service registration without services.
    NoArguments,
    /// The caller already has a service id.
    ServiceAlreadyRegistered,
    /// A service address is not a contract, or is zero.
    InvalidScAddress,
    /// A service asks for a token that is not accepted.
    InvalidTokenId,
    /// The next payment is not due yet.
    TooEarly,
    /// The service index is past the service's list.
    ServiceIndexOutOfRange,
}

/// The message a refused call fails with.
pub open spec fn subscription_error_message(e: SubscriptionError) -> Seq<char> {
    match e {
        SubscriptionError::InvalidPriceQueryAddress => "Invalid price query address"@,
        SubscriptionError::NotOwner => "Endpoint can only be called by owner"@,
        SubscriptionError::InvalidToken => "Invalid token"@,
        SubscriptionError::FungibleTokenExpected => "fungible ESDT token expected"@,
        SubscriptionError::NoPaymentAmount => "No payment amount provided"@,
        SubscriptionError::InvalidPaymentToken => "Invalid payment token provided"@,
        SubscriptionError::UnknownAddress => "Unknown address"@,
        SubscriptionError::IdOverflow => "ID Overflow"@,
        SubscriptionError::NoArguments => "No arguments provided"@,
        SubscriptionError::ServiceAlreadyRegistered => "Service already registered"@,
        SubscriptionError::InvalidScAddress => "Invalid SC address"@,
        SubscriptionError::InvalidTokenId => "Invalid token ID"@,
        SubscriptionError::TooEarly => "Cannot substract the payment yet"@,
        SubscriptionError::ServiceIndexOutOfRange => "ManagedVec index out of range"@,
    }
}

impl SubscriptionError {
    pub fn message(&self) -> (m: &'static str)
        ensures
            m@ == subscription_error_message(*self),
    {
        match self {
            SubscriptionError::InvalidPriceQueryAddress => "Invalid price query address",
            SubscriptionError::NotOwner => "Endpoint can only be called by owner",
            SubscriptionError::InvalidToken => "Invalid token",
            SubscriptionError::FungibleTokenExpected => "fungible ESDT token expected",
            SubscriptionError::NoPaymentAmount => "No payment amount provided",
            SubscriptionError::InvalidPaymentToken => "Invalid payment token provided",
            SubscriptionError::UnknownAddress => "Unknown address",
            SubscriptionError::IdOverflow => "ID Overflow",
            SubscriptionError::NoArguments => "No arguments provided",
            SubscriptionError::ServiceAlreadyRegistered => "Service already registered",
            SubscriptionError::InvalidScAddress => "Invalid SC address",
            SubscriptionError::InvalidTokenId => "Invalid token ID",
            SubscriptionError::TooEarly => "Cannot substract the payment yet",
            SubscriptionError::ServiceIndexOutOfRange => "ManagedVec index out of range",
        }
    }
}

/// `m[k]`, or 0 when `k` was never set.
pub open spec fn amount_or_zero<K>(m: Map<K, nat>, k: K) -> nat {
    if m.contains_key(k) {
        m[k]
    } else {
        0
    }
}

/// Inserting into a map and then mapping its values is mapping and then inserting.
pub proof fn lemma_map_values_insert<K, V, W>(m: Map<K, V>, k: K, v: V, f: spec_fn(V) -> W)
    ensures
        m.insert(k, v).map_values(f) == m.map_values(f).insert(k, f(v)),
{
    assert(m.insert(k, v).map_values(f) =~= m.map_values(f).insert(k, f(v)));
}

/// The contract's storage as mathematical values.
pub struct SubscriptionState {
    pub price_query_address: Address,
    pub payments: PaymentsState,
    pub services: ServiceState,
    pub user_last_action_epoch: Map<(AddressId, AddressId, usize), Epoch>,
}

/// The payments module's endpoints and views.
pub trait PaymentsModule: Sized {
    /// The storage is well formed.
    spec fn wf(&self) -> bool;

    /// The owner accepts more tokens.
    fn add_accepted_payment_tokens(&mut self, caller_is_owner: bool, tokens: &Vec<TokenId>) -> (r: Result<(), SubscriptionError>)
        requires
            old(self).wf(),
        ensures
            final(self).wf(),
    ;

    /// `caller` deposits a payment.
    fn deposit(&mut self, caller: &Address, token: &TokenId, nonce: u64, amount: Amount) -> (r: Result<(), SubscriptionError>)
        requires
            old(self).wf(),
        ensures
            final(self).wf(),
    ;

    /// `caller` withdraws deposits.
    fn withdraw(&mut self, caller: &Address, requests: &Vec<(TokenId, Amount)>) -> (r: Result<WithdrawOutcome, SubscriptionError>)
        requires
            old(self).wf(),
        ensures
            final(self).wf(),
    ;

    /// The accepted tokens.
    fn accepted_payment_tokens(&self) -> (v: Vec<TokenId>)
        requires
            self.wf(),
    ;

    /// The ESDT deposits of a user.
    fn user_deposited_payments(&self, user_id: AddressId) -> (u: UniquePayments)
        requires
            self.wf(),
    ;

    /// The EGLD deposit of a user.
    fn user_deposited_egld(&self, user_id: AddressId) -> (a: Amount)
        requires
            self.wf(),
    ;
}

/// The service module's endpoints.
pub trait ServiceModule: PaymentsModule {
    /// `caller` registers services.
    fn register_service(&self, caller: &Address, args: &Vec<(ServiceInfo, bool)>) -> (r: Result<(), SubscriptionError>)
        requires
            self.wf(),
    ;
}

/// The periodic-payment module's endpoints.
pub trait SubstractPaymentsModule: PaymentsModule + ServiceModule {
    /// A service takes a periodic payment.
    fn substract_payment(
        &mut self,
        caller: &Address,
        service_index: usize,
        user_id: AddressId,
        current_epoch: Epoch,
        prices: &Vec<Option<Amount>>,
    ) -> (r: Result<CustomScResult<EgldOrEsdtTokenPayment, ()>, SubscriptionError>)
        requires
            old(self).wf(),
        ensures
            final(self).wf(),
    ;
}

/// The subscription contract: all three modules, deployed with a price query contract
/// and the first accepted tokens.
pub trait Subscription: PaymentsModule + ServiceModule + SubstractPaymentsModule {
    /// Deploys the contract.
    fn init(price_query_address: &Address, price_query_is_contract: bool, accepted_tokens: &Vec<TokenId>) -> (r: Result<Self, SubscriptionError>);
}

/// The subscription contract's storage: that of its modules.
pub struct SubscriptionContract {
    price_query_address: Address,
    payments: PaymentsStorage,
    services: ServiceStorage,
    substract: SubstractStorage,
}

impl SubscriptionContract {
    pub closed spec fn view(&self) -> SubscriptionState {
        SubscriptionState {
            price_query_address: self.price_query_address,
            payments: self.payments@,
            services: self.services@,
            user_last_action_epoch: self.substract@,
        }
    }

    /// The price query contract.
    pub fn price_query_address(&self) -> (a: Address)
        ensures
            a == self@.price_query_address,
    {
        self.price_query_address
    }

    /// The payments module.
    pub fn payments(&self) -> (m: &PaymentsStorage)
        requires
            self.wf(),
        ensures
            m.wf(),
            m@ == self@.payments,
    {
        &self.payments
    }

    /// The service module.
    pub fn services(&self) -> (m: &ServiceStorage)
        requires
            self.wf(),
        ensures
            m.wf(),
            m@ == self@.services,
    {
        &self.services
    }

    /// The periodic-payment module.
    pub fn substract_module(&self) -> (m: &SubstractStorage)
        requires
            self.wf(),
        ensures
            m.wf(),
            m@ == self@.user_last_action_epoch,
    {
        &self.substract
    }

    /// Gives `address` a service id if it has none (a write to the service id storage).
    pub fn service_id_or_insert(&mut self, address: &Address) -> (r: Option<AddressId>)
        requires
            old(self).wf(),
        ensures
            final(self).wf(),
            match id_or_insert_result(old(self)@.services.service_ids, *address) {
                Some((ids, id)) => r == Some(id) && final(self)@ == (SubscriptionState {
                    services: ServiceState { service_ids: ids, ..old(self)@.services },
                    ..old(self)@
                }),
                None => r is None && final(self)@ == old(self)@,
            },
    {
        self.services.service_id_or_insert(address)
    }

    /// Writes the services of provider `service_id` (a write to the service storage).
    pub fn set_service_info(&mut self, service_id: AddressId, infos: Vec<ServiceInfo>)
        requires
            old(self).wf(),
        ensures
            final(self).wf(),
            final(self)@ == (SubscriptionState {
                services: ServiceState {
                    service_info: old(self)@.services.service_info.insert(
                        service_id,
                        infos@.map_values(|i: ServiceInfo| service_info_view(i)),
                    ),
                    ..old(self)@.services
                },
                ..old(self)@
            }),
    {
        self.services.set_service_info(service_id, infos)
    }

    /// Writes a periodicity (a write to the subscription storage).
    pub fn set_subscription_type(&mut self, user_id: AddressId, service_id: AddressId, service_index: usize, p: Periodicity)
        requires
            old(self).wf(),
        ensures
            final(self).wf(),
            final(self)@ == (SubscriptionState {
                services: ServiceState {
                    subscription_type: old(self)@.services.subscription_type.insert((user_id, service_id, service_index), p),
                    ..old(self)@.services
                },
                ..old(self)@
            }),
    {
        self.services.set_subscription_type(user_id, service_id, service_index, p)
    }
}

impl PaymentsModule for SubscriptionContract {
    closed spec fn wf(&self) -> bool {
        &&& self.payments.wf()
        &&& self.services.wf()
        &&& self.substract.wf()
    }

    /// The owner accepts more tokens (see `PaymentsStorage::add_accepted_payment_tokens`).
    fn add_accepted_payment_tokens(&mut self, caller_is_owner: bool, tokens: &Vec<TokenId>) -> (r: Result<(), SubscriptionError>)
        ensures
            final(self).wf(),
            match add_accepted_result(old(self)@.payments, caller_is_owner, tokens@.map_values(|t: TokenId| t@)) {
                Ok(p) => r == Ok::<(), SubscriptionError>(()) && final(self)@ == (SubscriptionState { payments: p, ..old(self)@ }),
                Err(e) => r == Err::<(), SubscriptionError>(e) && *final(self) == *old(self),
            },
    {
        self.payments.add_accepted_payment_tokens(caller_is_owner, tokens)
    }

    /// `caller` deposits a payment (see `PaymentsStorage::deposit`).
    fn deposit(&mut self, caller: &Address, token: &TokenId, nonce: u64, amount: Amount) -> (r: Result<(), SubscriptionError>)
        ensures
            final(self).wf(),
            match deposit_result(old(self)@.payments, *caller, token@, nonce, amount@) {
                Ok(p) => r == Ok::<(), SubscriptionError>(()) && final(self)@ == (SubscriptionState { payments: p, ..old(self)@ }),
                Err(e) => r == Err::<(), SubscriptionError>(e) && *final(self) == *old(self),
            },
    {
        self.payments.deposit(caller, token, nonce, amount)
    }

    /// `caller` withdraws deposits (see `PaymentsStorage::withdraw`).
    fn withdraw(&mut self, caller: &Address, requests: &Vec<(TokenId, Amount)>) -> (r: Result<WithdrawOutcome, SubscriptionError>)
        ensures
            final(self).wf(),
            match withdraw_result(old(self)@.payments, *caller, requests@.map_values(|q: (TokenId, Amount)| (q.0@, q.1@))) {
                Ok((p, total, sends, outs)) => r matches Ok(o) && o.egld_amount@ == total
                    && o.egld_transfers@.map_values(|a: Amount| a@) == sends
                    && o.esdt_payments@.map_values(|x: EsdtTokenPayment| payment_view(x)) == outs
                    && final(self)@ == (SubscriptionState { payments: p, ..old(self)@ }),
                Err(e) => r matches Err(x) && x == e && *final(self) == *old(self),
            },
    {
        self.payments.withdraw(caller, requests)
    }

    /// The accepted tokens, in order of acceptance.
    fn accepted_payment_tokens(&self) -> (v: Vec<TokenId>)
        ensures
            v@.map_values(|t: TokenId| t@) == self@.payments.accepted_payment_tokens,
    {
        self.payments.accepted_payment_tokens()
    }

    /// The ESDT deposits of user `user_id`.
    fn user_deposited_payments(&self, user_id: AddressId) -> (u: UniquePayments)
        ensures
            u.wf(),
            u@ == payments_of(self@.payments, user_id),
    {
        self.payments.user_deposited_payments(user_id)
    }

    /// The EGLD deposit of user `user_id`.
    fn user_deposited_egld(&self, user_id: AddressId) -> (a: Amount)
        ensures
            a@ == amount_or_zero(self@.payments.user_deposited_egld, user_id),
    {
        self.payments.user_deposited_egld(user_id)
    }
}

impl ServiceModule for SubscriptionContract {
    /// `caller` registers services (see `ServiceStorage::register_service`).
    fn register_service(&self, caller: &Address, args: &Vec<(ServiceInfo, bool)>) -> (r: Result<(), SubscriptionError>)
        ensures
            r == register_service_result(
                self@.services,
                self@.payments.accepted_payment_tokens,
                *caller,
                args@.map_values(|a: (ServiceInfo, bool)| (service_info_view(a.0), a.1)),
            ),
    {
        self.services.register_service(&self.payments, caller, args)
    }
}

impl SubstractPaymentsModule for SubscriptionContract {
    /// The service `caller` takes a periodic payment (see
    /// `SubstractStorage::substract_payment`).
    fn substract_payment(
        &mut self,
        caller: &Address,
        service_index: usize,
        user_id: AddressId,
        current_epoch: Epoch,
        prices: &Vec<Option<Amount>>,
    ) -> (r: Result<CustomScResult<EgldOrEsdtTokenPayment, ()>, SubscriptionError>)
        ensures
            final(self).wf(),
            match substract_payment_result(
                old(self)@.payments,
                old(self)@.services,
                old(self)@.user_last_action_epoch,
                *caller,
                service_index,
                user_id,
                current_epoch,
                prices_view(prices@),
            ) {
                Ok((p, epochs, taken)) => r matches Ok(x) && taken_view(x) == taken
                    && final(self)@ == (SubscriptionState { payments: p, user_last_action_epoch: epochs, ..old(self)@ }),
                Err(e) => r == Err::<CustomScResult<EgldOrEsdtTokenPayment, ()>, SubscriptionError>(e) && *final(self) == *old(self),
            },
    {
        self.substract.substract_payment(&mut self.payments, &self.services, caller, service_index, user_id, current_epoch, prices)
    }
}

impl Subscription for SubscriptionContract {
    /// Deploys the contract with the price query contract `price_query_address`
    /// (`price_query_is_contract` is the chain's answer to whether it is one) and the
    /// accepted tokens `accepted_tokens`.
    fn init(price_query_address: &Address, price_query_is_contract: bool, accepted_tokens: &Vec<TokenId>) -> (r: Result<SubscriptionContract, SubscriptionError>)
        ensures
            !price_query_is_contract ==> (r matches Err(e) && e == SubscriptionError::InvalidPriceQueryAddress),
            price_query_is_contract ==> match accept_valid_tokens_result(
                PaymentsState {
                    accepted_payment_tokens: Seq::empty(),
                    user_ids: Seq::empty(),
                    user_deposited_payments: Map::empty(),
                    user_deposited_egld: Map::empty(),
                },
                accepted_tokens@.map_values(|t: TokenId| t@),
            ) {
                Ok(p) => r matches Ok(c) && c.wf() && c@ == (SubscriptionState {
                    price_query_address: *price_query_address,
                    payments: p,
                    services: ServiceState {
                        service_ids: Seq::empty(),
                        service_info: Map::empty(),
                        subscription_type: Map::empty(),
                    },
                    user_last_action_epoch: Map::empty(),
                }),
                Err(e) => r matches Err(x) && x == e,
            },
    {
        if !price_query_is_contract {
            return Err(SubscriptionError::InvalidPriceQueryAddress);
        }
        let mut payments = PaymentsStorage::new();
        match payments.accept_valid_tokens(accepted_tokens) {
            Ok(()) => {},
            Err(e) => {
                return Err(e);
            },
        }
        let services = ServiceStorage::new();
        let substract = SubstractStorage::new();
        Ok(SubscriptionContract { price_query_address: *price_query_address, payments, services, substract })
    }
}

/// The amount deposited under key `k` (token, nonce) in `ps`, 0 when not listed.
pub open spec fn deposited_amount(ps: Seq<PaymentView>, k: (Seq<u8>, u64)) -> nat {
    if seq_has_key(ps, k) {
        ps[seq_index_of(ps, k)].1
    } else {
        0
    }
}

/// Depositing EGLD and then withdrawing the same amount gives it back: the withdrawal
/// sends exactly that amount, in one transfer, and the depositor's EGLD deposit is
/// what it was before the deposit.
pub proof fn law_deposit_then_withdraw_egld(s: PaymentsState, caller: Address, amount: nat)
    requires
        s.user_ids.no_duplicates(),
        s.user_ids.len() <= u64::MAX,
        deposit_result(s, caller, None, 0, amount) is Ok,
    ensures
        ({
            let s1 = deposit_result(s, caller, None, 0, amount)->Ok_0;
            let id = id_of(s1.user_ids, caller);
            let w = withdraw_result(s1, caller, seq![(None::<Seq<u8>>, amount)]);
            &&& id != 0
            &&& w is Ok
            &&& w->Ok_0.1 == amount
            &&& w->Ok_0.2 == seq![amount]
            &&& amount_or_zero(w->Ok_0.0.user_deposited_egld, id) == amount_or_zero(s.user_deposited_egld, id)
        }),
{
    lemma_id_or_insert(s.user_ids, caller);
    let s1 = deposit_result(s, caller, None, 0, amount)->Ok_0;
    let requests = seq![(None::<Seq<u8>>, amount)];
    let id = id_of(s1.user_ids, caller);
    let ps = payments_of(s1, id);
    assert(requests.len() == 1);
    assert(withdraw_fold(s1.user_deposited_egld, id, ps, requests, 0) == (
        s1.user_deposited_egld,
        0nat,
        Seq::<nat>::empty(),
        Seq::<PaymentView>::empty(),
    ));
    assert(Seq::<nat>::empty().push(amount) =~= seq![amount]);
}

/// A withdrawal never sends more EGLD than the caller deposited: the EGLD sent plus
/// what is left is the deposit before. Other users' EGLD and all ESDT deposits stay
/// as they were.
pub proof fn law_withdraw_within_deposit(s: PaymentsState, caller: Address, requests: Seq<(Option<Seq<u8>>, nat)>)
    requires
        withdraw_result(s, caller, requests) is Ok,
    ensures
        ({
            let id = id_of(s.user_ids, caller);
            let (s2, total, _, _) = withdraw_result(s, caller, requests)->Ok_0;
            &&& total + amount_or_zero(s2.user_deposited_egld, id) == amount_or_zero(s.user_deposited_egld, id)
            &&& forall|k: AddressId| k != id ==> #[trigger] amount_or_zero(s2.user_deposited_egld, k) == amount_or_zero(s.user_deposited_egld, k)
            &&& forall|k: AddressId| #[trigger] payments_of(s2, k) == payments_of(s, k)
        }),
{
    let id = id_of(s.user_ids, caller);
    lemma_withdraw_egld_conserved(s.user_deposited_egld, id, payments_of(s, id), requests, requests.len());
}

/// Depositing an ESDT adds the amount to what the depositor holds of that token.
pub proof fn law_esdt_deposit_accumulates(s: PaymentsState, caller: Address, t: Seq<u8>, amount: nat)
    requires
        s.user_ids.no_duplicates(),
        s.user_ids.len() <= u64::MAX,
        forall|k: AddressId| #[trigger] s.user_deposited_payments.contains_key(k) ==> keys_distinct(s.user_deposited_payments[k]),
        deposit_result(s, caller, Some(t), 0, amount) is Ok,
    ensures
        ({
            let s1 = deposit_result(s, caller, Some(t), 0, amount)->Ok_0;
            let id = id_of(s1.user_ids, caller);
            deposited_amount(payments_of(s1, id), (t, 0u64)) == deposited_amount(payments_of(s, id), (t, 0u64)) + amount
        }),
{
    lemma_id_or_insert(s.user_ids, caller);
    let s1 = deposit_result(s, caller, Some(t), 0, amount)->Ok_0;
    let id = id_of(s1.user_ids, caller);
    let key = (t, 0u64);
    if !s.user_deposited_payments.contains_key(id) {
        let ps1 = seq![(key, amount)];
        assert(ps1[0].0 == key);
        lemma_index_of_unique(ps1, 0);
    } else {
        let ps = s.user_deposited_payments[id];
        let ps1 = add_payment_result(ps, (key, amount));
        if seq_has_key(ps, key) {
            let i = seq_index_of(ps, key);
            lemma_update_view(ps, i, ps[i].1 + amount);
            assert(ps[i].0 == key);
            lemma_index_of_unique(ps1, i);
        } else {
            lemma_push_view(ps, key, amount);
            lemma_index_of_unique(ps1, ps.len() as int);
        }
    }
}

/// A deposit keeps the id of every user that already had one.
pub proof fn law_deposit_keeps_user_ids(s: PaymentsState, caller: Address, token: Option<Seq<u8>>, amount: nat, other: Address)
    requires
        s.user_ids.no_duplicates(),
        s.user_ids.len() <= u64::MAX,
        deposit_result(s, caller, token, 0, amount) is Ok,
        id_of(s.user_ids, other) != 0,
    ensures
        id_of(deposit_result(s, caller, token, 0, amount)->Ok_0.user_ids, other) == id_of(s.user_ids, other),
{
    lemma_id_or_insert(s.user_ids, caller);
}

/// A service is paid at most once a month: once a payment went through at epoch
/// `epoch` (> 0), asking again for the same user and service before `epoch + 30` is
/// refused as too early.
pub proof fn law_one_payment_per_month(
    p: PaymentsState,
    svc: ServiceState,
    epochs: Map<(AddressId, AddressId, usize), Epoch>,
    caller: Address,
    service_index: usize,
    user_id: AddressId,
    epoch: Epoch,
    prices: Seq<Option<nat>>,
    later: Epoch,
    later_prices: Seq<Option<nat>>,
)
    requires
        substract_payment_result(p, svc, epochs, caller, service_index, user_id, epoch, prices) matches Ok((_, _, Some(_))),
        epoch > 0,
        later < epoch + MONTHLY_EPOCH,
    ensures
        ({
            let (p2, e2, _) = substract_payment_result(p, svc, epochs, caller, service_index, user_id, epoch, prices)->Ok_0;
            substract_payment_result(p2, svc, e2, caller, service_index, user_id, later, later_prices)
                == Err::<(PaymentsState, Map<(AddressId, AddressId, usize), Epoch>, Option<TakenPayment>), SubscriptionError>(
                SubscriptionError::TooEarly,
            )
        }),
{
}

/// A payment in EGLD takes exactly the month's price out of the user's EGLD deposit.
pub proof fn law_egld_payment_takes_price(
    p: PaymentsState,
    svc: ServiceState,
    epochs: Map<(AddressId, AddressId, usize), Epoch>,
    caller: Address,
    service_index: usize,
    user_id: AddressId,
    epoch: Epoch,
    prices: Seq<Option<nat>>,
)
    requires
        substract_payment_result(p, svc, epochs, caller, service_index, user_id, epoch, prices) matches Ok((_, _, Some(
            taken,
        ))) && taken.0 is None,
    ensures
        ({
            let (p2, _, taken) = substract_payment_result(p, svc, epochs, caller, service_index, user_id, epoch, prices)->Ok_0;
            let service_id = id_of(svc.service_ids, caller);
            &&& taken->Some_0.2 == services_of(svc, service_id)[service_index as int].2 * multiplier_of(
                periodicity_of(svc, user_id, service_id, service_index),
            )
            &&& amount_or_zero(p2.user_deposited_egld, user_id) + taken->Some_0.2 == amount_or_zero(p.user_deposited_egld, user_id)
        }),
{
}

/// The amount held of a token read through the map a deposit list stands for.
pub proof fn lemma_deposited_amount_map(ps: Seq<PaymentView>, key: (Seq<u8>, u64))
    ensures
        deposited_amount(ps, key) == (if seq_to_map(ps).contains_key(key) {
            seq_to_map(ps)[key]
        } else {
            0
        }),
{
}

/// Adding a payment to a deposit list adds its amount to that token only, and keeps
/// each token listed once.
proof fn lemma_add_payment_amount(ps: Seq<PaymentView>, p: PaymentView, key: (Seq<u8>, u64))
    requires
        keys_distinct(ps),
    ensures
        keys_distinct(add_payment_result(ps, p)),
        deposited_amount(add_payment_result(ps, p), key) == deposited_amount(ps, key) + (if key == p.0 {
            p.1
        } else {
            0
        }),
{
    let ps2 = add_payment_result(ps, p);
    lemma_deposited_amount_map(ps, key);
    lemma_deposited_amount_map(ps2, key);
    if p.1 == 0 {
        if key == p.0 {
            assert(deposited_amount(ps, key) + p.1 == deposited_amount(ps, key));
        }
    } else if seq_has_key(ps, p.0) {
        let i = seq_index_of(ps, p.0);
        assert(ps[i].0 == p.0);
        lemma_index_of_unique(ps, i);
        lemma_update_view(ps, i, ps[i].1 + p.1);
        assert(seq_to_map(ps).contains_key(p.0));
        assert(seq_to_map(ps)[p.0] == ps[i].1);
    } else {
        lemma_push_view(ps, p.0, p.1);
    }
}

/// A credit to user `id` adds to its EGLD deposit or to the amount it holds of one
/// token, and to nothing else.
proof fn lemma_credit(s: PaymentsState, id: AddressId, t: Option<Seq<u8>>, a: nat, key: (Seq<u8>, u64))
    requires
        s.user_deposited_payments.contains_key(id) ==> keys_distinct(s.user_deposited_payments[id]),
    ensures
        ({
            let s2 = add_user_payment_result(s, id, t, a);
            &&& s2.user_deposited_payments.contains_key(id) ==> keys_distinct(s2.user_deposited_payments[id])
            &&& amount_or_zero(s2.user_deposited_egld, id) == amount_or_zero(s.user_deposited_egld, id) + (if t is None {
                a
            } else {
                0
            })
            &&& deposited_amount(payments_of(s2, id), key) == deposited_amount(payments_of(s, id), key) + (if t
                == Some(key.0) && key.1 == 0 {
                a
            } else {
                0
            })
        }),
{
    match t {
        None => {},
        Some(tk) => {
            if !s.user_deposited_payments.contains_key(id) {
                let one = seq![((tk, 0u64), a)];
                assert(keys_distinct(one));
                lemma_deposited_amount_map(one, key);
                if key == (tk, 0u64) {
                    assert(one[0].0 == key);
                    lemma_index_of_unique(one, 0);
                } else {
                    assert(!seq_has_key(one, key));
                }
                assert(payments_of(s, id) =~= Seq::<PaymentView>::empty());
                assert(!seq_has_key(Seq::<PaymentView>::empty(), key));
            } else {
                lemma_add_payment_amount(s.user_deposited_payments[id], ((tk, 0u64), a), key);
            }
        },
    }
}

/// Two credits to the same user give the same deposits in either order: the same
/// EGLD deposit and the same amount of every token.
pub proof fn law_credits_commute(
    s: PaymentsState,
    id: AddressId,
    t1: Option<Seq<u8>>,
    a1: nat,
    t2: Option<Seq<u8>>,
    a2: nat,
    key: (Seq<u8>, u64),
)
    requires
        s.user_deposited_payments.contains_key(id) ==> keys_distinct(s.user_deposited_payments[id]),
    ensures
        ({
            let x = add_user_payment_result(add_user_payment_result(s, id, t1, a1), id, t2, a2);
            let y = add_user_payment_result(add_user_payment_result(s, id, t2, a2), id, t1, a1);
            &&& amount_or_zero(x.user_deposited_egld, id) == amount_or_zero(y.user_deposited_egld, id)
            &&& deposited_amount(payments_of(x, id), key) == deposited_amount(payments_of(y, id), key)
        }),
{
    lemma_credit(s, id, t1, a1, key);
    lemma_credit(add_user_payment_result(s, id, t1, a1), id, t2, a2, key);
    lemma_credit(s, id, t2, a2, key);
    lemma_credit(add_user_payment_result(s, id, t2, a2), id, t1, a1, key);
}

} // verus!
