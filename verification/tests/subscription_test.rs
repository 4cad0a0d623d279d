use sc_contracts::bignat::BigNat;
use sc_contracts::payments::PaymentsStorage;
use sc_contracts::service::{Periodicity, ServiceInfo};
use sc_contracts::subscription::{
    PaymentsModule, ServiceModule, SubstractPaymentsModule, Subscription, SubscriptionContract, SubscriptionError,
};
use sc_contracts::substract_payments::{price_covers, CustomScResult};
use sc_contracts::types::{Address, Amount, EgldOrEsdtTokenPayment, EsdtTokenPayment, TokenId};

const FIRST_TOKEN_ID: &[u8] = b"MYTOKEN-123456";
const USDC_TOKEN_ID: &[u8] = b"USDC-123456";

fn addr(k: u8) -> Address {
    Address::from_bytes([k; 32])
}

fn n(x: u128) -> Amount {
    BigNat::from_u128(x)
}

fn first_token() -> TokenId {
    TokenId::Esdt(FIRST_TOKEN_ID.to_vec())
}

fn usdc() -> TokenId {
    TokenId::Esdt(USDC_TOKEN_ID.to_vec())
}

fn pair_address() -> Address {
    addr(200)
}

fn init_all() -> SubscriptionContract {
    SubscriptionContract::init(&pair_address(), true, &vec![first_token()]).ok().unwrap()
}

#[test]
fn subscription_test_init_test() {
    let c = init_all();
    assert_eq!(c.price_query_address(), pair_address());
    assert_eq!(c.accepted_payment_tokens(), vec![first_token()]);
}

#[test]
fn register_service_test() {
    let c = init_all();
    let rand_service = addr(1);
    let args = vec![(
        ServiceInfo { sc_address: pair_address(), opt_payment_token: Some(first_token()), amount: n(1000) },
        true,
    )];
    assert_eq!(c.register_service(&rand_service, &args), Ok(()));
}

#[test]
fn init_with_non_contract_price_query_is_refused() {
    let err = SubscriptionContract::init(&pair_address(), false, &vec![first_token()]).err().unwrap();
    assert_eq!(err, SubscriptionError::InvalidPriceQueryAddress);
    assert_eq!(err.message(), "Invalid price query address");
}

#[test]
fn init_with_invalid_token_is_refused() {
    let bad = TokenId::Esdt(b"bad".to_vec());
    let err = SubscriptionContract::init(&pair_address(), true, &vec![first_token(), bad]).err().unwrap();
    assert_eq!(err, SubscriptionError::InvalidToken);
    assert_eq!(err.message(), "Invalid token");
}

#[test]
fn accepting_tokens_is_for_the_owner_and_lists_each_once() {
    let mut c = init_all();
    assert_eq!(c.add_accepted_payment_tokens(false, &vec![usdc()]), Err(SubscriptionError::NotOwner));
    assert_eq!(c.accepted_payment_tokens(), vec![first_token()]);
    assert_eq!(c.add_accepted_payment_tokens(true, &vec![usdc(), first_token(), TokenId::Egld]), Ok(()));
    assert_eq!(c.accepted_payment_tokens(), vec![first_token(), usdc(), TokenId::Egld]);
}

#[test]
fn deposit_errors() {
    let mut c = init_all();
    let user = addr(3);
    assert_eq!(c.deposit(&user, &first_token(), 1, n(10)), Err(SubscriptionError::FungibleTokenExpected));
    assert_eq!(c.deposit(&user, &first_token(), 0, n(0)), Err(SubscriptionError::NoPaymentAmount));
    let err = c.deposit(&user, &usdc(), 0, n(10)).unwrap_err();
    assert_eq!(err, SubscriptionError::InvalidPaymentToken);
    assert_eq!(err.message(), "Invalid payment token provided");
    assert_eq!(c.payments().user_id(&user), 0);
}

#[test]
fn esdt_deposits_accumulate() {
    let mut c = init_all();
    let user = addr(3);
    assert_eq!(c.deposit(&user, &first_token(), 0, n(100)), Ok(()));
    assert_eq!(c.deposit(&user, &first_token(), 0, n(50)), Ok(()));
    assert_eq!(c.payments().user_id(&user), 1);
    let deposits = c.user_deposited_payments(1).into_payments();
    assert_eq!(deposits, vec![EsdtTokenPayment::new(FIRST_TOKEN_ID.to_vec(), 0, n(150))]);
}

#[test]
fn egld_deposit_then_withdraw() {
    let mut c = SubscriptionContract::init(&pair_address(), true, &vec![TokenId::Egld]).ok().unwrap();
    let user = addr(3);
    assert_eq!(c.deposit(&user, &TokenId::Egld, 0, n(100)), Ok(()));
    assert_eq!(c.user_deposited_egld(1), n(100));
    let out = c.withdraw(&user, &vec![(TokenId::Egld, n(40)), (TokenId::Egld, n(70)), (TokenId::Egld, n(60))]).ok().unwrap();
    // The second request is more than is left and is skipped.
    assert_eq!(out.egld_amount, n(100));
    assert_eq!(out.egld_transfers, vec![n(40), n(60)]);
    assert!(out.esdt_payments.is_empty());
    assert_eq!(c.user_deposited_egld(1), n(0));
}

#[test]
fn esdt_withdraw_sends_covered_requests() {
    let mut c = init_all();
    let user = addr(3);
    c.deposit(&user, &first_token(), 0, n(100)).unwrap();
    let out = c.withdraw(&user, &vec![(first_token(), n(30)), (first_token(), n(200)), (usdc(), n(1))]).ok().unwrap();
    assert_eq!(out.egld_amount, n(0));
    assert_eq!(out.esdt_payments, vec![EsdtTokenPayment::new(FIRST_TOKEN_ID.to_vec(), 0, n(30))]);
}

#[test]
fn withdraw_by_unknown_address_is_refused() {
    let mut c = init_all();
    let err = c.withdraw(&addr(9), &vec![(TokenId::Egld, n(1))]).err().unwrap();
    assert_eq!(err, SubscriptionError::UnknownAddress);
    assert_eq!(err.message(), "Unknown address");
}

#[test]
fn register_service_errors() {
    let mut c = init_all();
    let service = addr(1);
    assert_eq!(c.register_service(&service, &vec![]), Err(SubscriptionError::NoArguments));
    let not_contract = vec![(
        ServiceInfo { sc_address: pair_address(), opt_payment_token: None, amount: n(5) },
        false,
    )];
    assert_eq!(c.register_service(&service, &not_contract), Err(SubscriptionError::InvalidScAddress));
    let zero = vec![(ServiceInfo { sc_address: Address::zero(), opt_payment_token: None, amount: n(5) }, true)];
    assert_eq!(c.register_service(&service, &zero), Err(SubscriptionError::InvalidScAddress));
    let unknown_token = vec![(
        ServiceInfo { sc_address: pair_address(), opt_payment_token: Some(usdc()), amount: n(5) },
        true,
    )];
    let err = c.register_service(&service, &unknown_token).unwrap_err();
    assert_eq!(err, SubscriptionError::InvalidTokenId);
    assert_eq!(err.message(), "Invalid token ID");
    assert_eq!(c.service_id_or_insert(&service), Some(1));
    let ok = vec![(ServiceInfo { sc_address: pair_address(), opt_payment_token: None, amount: n(5) }, true)];
    assert_eq!(c.register_service(&service, &ok), Err(SubscriptionError::ServiceAlreadyRegistered));
}

fn with_subscribed_user(token: Option<TokenId>, price: u128, p: Periodicity) -> (SubscriptionContract, Address) {
    let mut c = init_all();
    let service = addr(1);
    let user = addr(3);
    assert_eq!(c.service_id_or_insert(&service), Some(1));
    c.set_service_info(1, vec![ServiceInfo { sc_address: pair_address(), opt_payment_token: token, amount: n(price) }]);
    c.deposit(&user, &first_token(), 0, n(100)).unwrap();
    c.set_subscription_type(1, 1, 0, p);
    (c, service)
}

#[test]
fn monthly_payment_is_taken_once_per_month() {
    let (mut c, service) = with_subscribed_user(Some(first_token()), 10, Periodicity::Monthly);
    let r = c.substract_payment(&service, 0, 1, 30, &vec![]).unwrap();
    assert!(!r.is_err());
    assert_eq!(r.unwrap_unchecked(), EgldOrEsdtTokenPayment::new(first_token(), 0, n(10)));
    assert_eq!(c.substract_module().user_last_action_epoch(1, 1, 0), 30);
    assert_eq!(c.user_deposited_payments(1).into_payments(), vec![EsdtTokenPayment::new(FIRST_TOKEN_ID.to_vec(), 0, n(90))]);
    let err = c.substract_payment(&service, 0, 1, 59, &vec![]).unwrap_err();
    assert_eq!(err, SubscriptionError::TooEarly);
    assert_eq!(err.message(), "Cannot substract the payment yet");
    assert_eq!(c.substract_payment(&service, 0, 1, 60, &vec![]).map(|r| r.is_err()), Ok(false));
    assert_eq!(c.user_deposited_payments(1).into_payments(), vec![EsdtTokenPayment::new(FIRST_TOKEN_ID.to_vec(), 0, n(80))]);
}

#[test]
fn daily_payment_takes_a_month_of_days() {
    let (mut c, service) = with_subscribed_user(Some(first_token()), 3, Periodicity::Daily);
    let r = c.substract_payment(&service, 0, 1, 5, &vec![]).unwrap();
    assert_eq!(r, CustomScResult::Success(EgldOrEsdtTokenPayment::new(first_token(), 0, n(90))));
    assert_eq!(c.user_deposited_payments(1).into_payments(), vec![EsdtTokenPayment::new(FIRST_TOKEN_ID.to_vec(), 0, n(10))]);
}

#[test]
fn uncovered_payment_fails_and_records_the_epoch() {
    let (mut c, service) = with_subscribed_user(Some(first_token()), 4, Periodicity::Daily);
    let r = c.substract_payment(&service, 0, 1, 5, &vec![]).unwrap();
    assert!(r.is_err());
    assert_eq!(r, CustomScResult::Failure(()));
    assert_eq!(c.substract_module().user_last_action_epoch(1, 1, 0), 5);
    assert_eq!(c.user_deposited_payments(1).into_payments(), vec![EsdtTokenPayment::new(FIRST_TOKEN_ID.to_vec(), 0, n(100))]);
}

#[test]
fn any_token_service_takes_the_quoted_price() {
    let (mut c, service) = with_subscribed_user(None, 10, Periodicity::Monthly);
    let r = c.substract_payment(&service, 0, 1, 1, &vec![Some(n(25))]).unwrap();
    assert_eq!(r, CustomScResult::Success(EgldOrEsdtTokenPayment::new(first_token(), 0, n(25))));
    assert_eq!(c.user_deposited_payments(1).into_payments(), vec![EsdtTokenPayment::new(FIRST_TOKEN_ID.to_vec(), 0, n(75))]);
}

#[test]
fn any_token_service_without_a_price_fails() {
    let (mut c, service) = with_subscribed_user(None, 10, Periodicity::Monthly);
    assert_eq!(c.substract_payment(&service, 0, 1, 1, &vec![None]), Ok(CustomScResult::Failure(())));
    assert_eq!(c.substract_payment(&service, 0, 1, 31, &vec![Some(n(101))]), Ok(CustomScResult::Failure(())));
}

#[test]
fn substract_payment_errors_and_no_ops() {
    let (mut c, service) = with_subscribed_user(Some(first_token()), 10, Periodicity::Monthly);
    assert_eq!(c.substract_payment(&addr(9), 0, 1, 30, &vec![]), Err(SubscriptionError::UnknownAddress));
    // A user id without an address, and a user that is not subscribed, pay nothing.
    assert_eq!(c.substract_payment(&service, 0, 7, 30, &vec![]), Ok(CustomScResult::Failure(())));
    assert_eq!(c.substract_payment(&service, 1, 1, 30, &vec![]), Ok(CustomScResult::Failure(())));
    c.set_subscription_type(1, 1, 3, Periodicity::Weekly);
    let err = c.substract_payment(&service, 3, 1, 30, &vec![]).unwrap_err();
    assert_eq!(err, SubscriptionError::ServiceIndexOutOfRange);
    assert_eq!(c.user_deposited_payments(1).into_payments(), vec![EsdtTokenPayment::new(FIRST_TOKEN_ID.to_vec(), 0, n(100))]);
}

#[test]
fn payments_storage_starts_empty() {
    let p = PaymentsStorage::new();
    assert!(p.accepted_payment_tokens().is_empty());
    assert_eq!(p.user_id(&addr(1)), 0);
    assert_eq!(p.user_address(1), None);
    assert_eq!(p.user_deposited_egld(1), n(0));
    assert!(!p.has_user_payments(1));
}

#[test]
fn a_price_past_u128_fails_the_payment_and_records_the_epoch() {
    let (mut c, service) = with_subscribed_user(Some(first_token()), u128::MAX, Periodicity::Daily);
    let r = c.substract_payment(&service, 0, 1, 1, &vec![]);
    assert_eq!(r, Ok(CustomScResult::Failure(())));
    assert_eq!(c.substract_module().user_last_action_epoch(1, 1, 0), 1);
    assert_eq!(c.user_deposited_payments(1).into_payments(), vec![EsdtTokenPayment::new(FIRST_TOKEN_ID.to_vec(), 0, n(100))]);
    let (mut c, service) = with_subscribed_user(None, u128::MAX, Periodicity::Daily);
    let r = c.substract_payment(&service, 0, 1, 1, &vec![Some(n(5))]);
    assert_eq!(r, Ok(CustomScResult::Success(EgldOrEsdtTokenPayment::new(first_token(), 0, n(5)))));
}

#[test]
fn egld_service_takes_from_the_egld_deposit() {
    let mut c = SubscriptionContract::init(&pair_address(), true, &vec![TokenId::Egld]).ok().unwrap();
    let service = addr(1);
    let user = addr(3);
    assert_eq!(c.service_id_or_insert(&service), Some(1));
    c.set_service_info(1, vec![ServiceInfo { sc_address: pair_address(), opt_payment_token: Some(TokenId::Egld), amount: n(2) }]);
    c.deposit(&user, &TokenId::Egld, 0, n(100)).unwrap();
    c.set_subscription_type(1, 1, 0, Periodicity::Weekly);
    // Four weeks of 2 each.
    let r = c.substract_payment(&service, 0, 1, 1, &vec![]);
    assert_eq!(r, Ok(CustomScResult::Success(EgldOrEsdtTokenPayment::new(TokenId::Egld, 0, n(8)))));
    assert_eq!(c.user_deposited_egld(1), n(92));
}

#[test]
fn egld_deposits_add_up_past_u128() {
    let mut c = SubscriptionContract::init(&pair_address(), true, &vec![TokenId::Egld]).ok().unwrap();
    let user = addr(3);
    assert_eq!(c.deposit(&user, &TokenId::Egld, 0, n(u128::MAX)), Ok(()));
    assert_eq!(c.deposit(&user, &TokenId::Egld, 0, n(1)), Ok(()));
    assert_eq!(c.user_deposited_egld(1), BigNat::from_limbs(vec![0, 0, 1]));
    let out = c.withdraw(&user, &vec![(TokenId::Egld, n(1))]).ok().unwrap();
    assert_eq!(out.egld_amount, n(1));
    assert_eq!(c.user_deposited_egld(1), n(u128::MAX));
}

#[test]
fn price_covers_an_entry() {
    let p = EsdtTokenPayment::new(FIRST_TOKEN_ID.to_vec(), 0, n(10));
    assert!(price_covers(&p, &Some(n(10))));
    assert!(!price_covers(&p, &Some(n(11))));
    assert!(!price_covers(&p, &None));
}

#[test]
fn credits_commute() {
    let tokens = vec![TokenId::Egld, first_token()];
    let mut x = SubscriptionContract::init(&pair_address(), true, &tokens).ok().unwrap();
    let mut y = SubscriptionContract::init(&pair_address(), true, &tokens).ok().unwrap();
    let user = addr(3);
    x.deposit(&user, &TokenId::Egld, 0, n(5)).unwrap();
    x.deposit(&user, &first_token(), 0, n(7)).unwrap();
    x.deposit(&user, &first_token(), 0, n(1)).unwrap();
    y.deposit(&user, &first_token(), 0, n(1)).unwrap();
    y.deposit(&user, &first_token(), 0, n(7)).unwrap();
    y.deposit(&user, &TokenId::Egld, 0, n(5)).unwrap();
    assert_eq!(x.user_deposited_egld(1), y.user_deposited_egld(1));
    assert_eq!(x.user_deposited_payments(1).into_payments(), y.user_deposited_payments(1).into_payments());
    assert_eq!(x.user_deposited_payments(1).into_payments(), vec![EsdtTokenPayment::new(FIRST_TOKEN_ID.to_vec(), 0, n(8))]);
}
