use sc_contracts::address_ids::AddressToId;
use sc_contracts::bignat::BigNat;
use sc_contracts::table::Table;
use sc_contracts::types::{bytes_equal, copy_bytes, is_valid_esdt_identifier, Address, EsdtTokenPayment, TokenId};
use sc_contracts::unique_payments::UniquePayments;

fn addr(n: u8) -> Address {
    Address::from_bytes([n; 32])
}

fn n(x: u128) -> BigNat {
    BigNat::from_u128(x)
}

fn pay(token: &[u8], amount: u128) -> EsdtTokenPayment {
    EsdtTokenPayment::new(token.to_vec(), 0, n(amount))
}

#[test]
fn esdt_identifier_format() {
    assert!(is_valid_esdt_identifier(&b"MYTOKEN-123456".to_vec()));
    assert!(is_valid_esdt_identifier(&b"USDC-abc123".to_vec()));
    assert!(is_valid_esdt_identifier(&b"ABC-000000".to_vec()));
    assert!(!is_valid_esdt_identifier(&b"AB-000000".to_vec()));
    assert!(!is_valid_esdt_identifier(&b"ABCDEFGHIJK-000000".to_vec()));
    assert!(!is_valid_esdt_identifier(&b"abc-000000".to_vec()));
    assert!(!is_valid_esdt_identifier(&b"ABC-00000A".to_vec()));
    assert!(!is_valid_esdt_identifier(&b"ABC_000000".to_vec()));
    assert!(!is_valid_esdt_identifier(&b"EGLD".to_vec()));
}

#[test]
fn token_ids() {
    assert!(TokenId::egld().is_egld());
    assert!(TokenId::egld().is_valid());
    let t = TokenId::esdt(b"MYTOKEN-123456".to_vec());
    assert!(!t.is_egld());
    assert!(t.is_valid());
    assert!(t.same(&t.duplicate()));
    assert!(!t.same(&TokenId::Egld));
    assert!(!TokenId::esdt(b"nope".to_vec()).is_valid());
}

#[test]
fn bytes_helpers() {
    let a = b"abc".to_vec();
    assert!(bytes_equal(&a, &copy_bytes(&a)));
    assert!(!bytes_equal(&a, &b"abd".to_vec()));
    assert!(!bytes_equal(&a, &b"ab".to_vec()));
}

#[test]
fn addresses() {
    assert!(Address::zero().is_zero());
    assert!(!addr(1).is_zero());
    assert!(addr(1).same(&addr(1)));
    assert!(!addr(1).same(&addr(2)));
}

#[test]
fn unique_payments_merge_by_token() {
    let mut u = UniquePayments::new();
    u.add_payment(pay(b"AAA-111111", 5));
    u.add_payment(pay(b"BBB-222222", 7));
    u.add_payment(pay(b"AAA-111111", 3));
    u.add_payment(pay(b"CCC-333333", 0));
    assert_eq!(u.len(), 2);
    assert_eq!(u.get(0), &pay(b"AAA-111111", 8));
    assert_eq!(u.duplicate().into_payments(), vec![pay(b"AAA-111111", 8), pay(b"BBB-222222", 7)]);
    u.add_payment(pay(b"AAA-111111", u128::MAX));
    // 8 + (2^128 - 1) = 2^128 + 7
    assert_eq!(u.get(0).amount, BigNat::from_limbs(vec![7, 0, 1]));
}

#[test]
fn unique_payments_withdraw_removes_emptied_entries() {
    let mut u = UniquePayments::new_from_unique_payments(vec![pay(b"AAA-111111", 5), pay(b"BBB-222222", 7)]);
    assert_eq!(u.withdraw_payments(&pay(b"AAA-111111", 6)), Err(()));
    assert_eq!(u.withdraw_payments(&pay(b"CCC-333333", 1)), Err(()));
    assert_eq!(u.withdraw_payments(&pay(b"AAA-111111", 2)), Ok(()));
    assert_eq!(u.get(0).amount, n(3));
    assert_eq!(u.withdraw_payments(&pay(b"AAA-111111", 3)), Ok(()));
    assert_eq!(u.into_payments(), vec![pay(b"BBB-222222", 7)]);
}

#[test]
fn unique_payments_single_item_and_set_amount() {
    let mut u = UniquePayments::from_single_item(pay(b"AAA-111111", 5));
    assert_eq!(u.len(), 1);
    u.set_amount(0, n(42));
    assert_eq!(u.get(0).amount, n(42));
}

#[test]
fn address_ids_count_up_from_one() {
    let mut ids = AddressToId::new();
    assert_eq!(ids.get_id(&addr(1)), 0);
    assert_eq!(ids.get_id_or_insert(&addr(1)), Some(1));
    assert_eq!(ids.get_id_or_insert(&addr(2)), Some(2));
    assert_eq!(ids.get_id_or_insert(&addr(1)), Some(1));
    assert_eq!(ids.len(), 2);
    assert_eq!(ids.get_id(&addr(2)), 2);
    assert_eq!(ids.get_address(2), Some(addr(2)));
    assert_eq!(ids.get_address(0), None);
    assert_eq!(ids.get_address(3), None);
    assert_eq!(ids.duplicate().get_id(&addr(1)), 1);
}

#[test]
fn table_insert_overwrites_and_keeps_order() {
    let mut t: Table<u64, u128> = Table::new();
    assert!(t.is_empty());
    t.insert(5, 50);
    t.insert(3, 30);
    t.insert(5, 55);
    assert_eq!(t.len(), 2);
    assert_eq!(t.get(&5), Some(&55));
    assert_eq!(t.get(&4), None);
    assert!(t.contains_key(&3));
    assert_eq!(t.find(&3), Some(1));
    assert_eq!(t.entry_at(0), &(5, 55));
    let d = t.duplicate();
    t.clear();
    assert!(t.is_empty());
    assert_eq!(d.len(), 2);
}

#[test]
fn big_numbers_add_subtract_compare() {
    let max = n(u128::MAX);
    let one = n(1);
    let two_128 = max.add(&one);
    assert_eq!(two_128, BigNat::from_limbs(vec![0, 0, 1]));
    assert_eq!(two_128.to_u128(), None);
    assert_eq!(two_128.checked_sub(&one), Some(n(u128::MAX)));
    assert_eq!(one.checked_sub(&two_128), None);
    assert!(one.lt(&two_128));
    assert!(two_128.le(&two_128));
    assert!(!two_128.le(&max));
    assert!(two_128.same(&BigNat::from_limbs(vec![0, 0, 1, 0, 0])));
    assert!(BigNat::zero().is_zero());
    assert!(!one.is_zero());
    assert_eq!(n(7).mul_u64(30), n(210));
    assert_eq!(max.mul_u64(2), BigNat::from_limbs(vec![u64::MAX - 1, u64::MAX, 1]));
    assert_eq!(BigNat::from_u64(5), n(5));
    assert_eq!(n(12345).to_u128(), Some(12345));
    assert_eq!(max.to_u128(), Some(u128::MAX));
    assert_eq!(max.dup(), max);
    assert_eq!(two_128.limbs(), &vec![0u64, 0, 1]);
    assert_eq!(BigNat::from_limbs(vec![0, 0]), BigNat::zero());
}
