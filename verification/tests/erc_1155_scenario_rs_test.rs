use sc_contracts::erc1155::{Erc1155, Erc1155Contract};
use sc_contracts::bignat::BigNat;
use sc_contracts::types::{Address, Amount};

fn n(x: u128) -> Amount {
    BigNat::from_u128(x)
}

fn addr(n: u8) -> Address {
    Address::from_bytes([n; 32])
}

#[test]
fn empty_rs() {
    let c = Erc1155Contract::init();
    assert_eq!(c.last_valid_type_id(), 0);
    assert!(!c.is_valid_type_id(0));
    assert!(!c.is_valid_type_id(1));
}

#[test]
fn deploy() {
    let c = Erc1155Contract::init();
    assert_eq!(c.last_valid_type_id(), 0);
    assert_eq!(c.esdt_tokens_balance(), n(0));
    assert_eq!(c.token_type_creator(1), None);
    assert!(!c.is_fungible(1));
}

#[test]
fn create_fungible() {
    let mut c = Erc1155Contract::init();
    let creator = addr(1);
    assert_eq!(c.create_token(&creator, n(1000), true), Ok(1));
    assert_eq!(c.last_valid_type_id(), 1);
    assert_eq!(c.balance(&creator, 1), n(1000));
    assert!(c.is_fungible(1));
    assert_eq!(c.token_type_creator(1), Some(creator));
    assert_eq!(c.last_valid_nft_type_id(1), 0);
    assert_eq!(c.token_owner(1, 1), None);
}

#[test]
fn create_nonfungible() {
    let mut c = Erc1155Contract::init();
    let creator = addr(1);
    assert_eq!(c.create_token(&creator, n(3), false), Ok(1));
    assert_eq!(c.balance(&creator, 1), n(3));
    assert!(!c.is_fungible(1));
    assert_eq!(c.last_valid_nft_type_id(1), 3);
    for nft in 1..=3u128 {
        assert_eq!(c.token_owner(1, nft), Some(creator));
        assert!(c.is_valid_nft_id(1, nft));
    }
    assert_eq!(c.token_owner(1, 4), None);
    assert!(!c.is_valid_nft_id(1, 4));
    assert!(!c.is_valid_nft_id(1, 0));
}

#[test]
fn create_two_fungible_same_creator() {
    let mut c = Erc1155Contract::init();
    let creator = addr(1);
    assert_eq!(c.create_token(&creator, n(100), true), Ok(1));
    assert_eq!(c.create_token(&creator, n(200), true), Ok(2));
    assert_eq!(c.balance(&creator, 1), n(100));
    assert_eq!(c.balance(&creator, 2), n(200));
    assert_eq!(c.token_type_creator(2), Some(creator));
    assert_eq!(c.last_valid_type_id(), 2);
}

#[test]
fn create_two_fungible_different_creator() {
    let mut c = Erc1155Contract::init();
    let first = addr(1);
    let second = addr(2);
    assert_eq!(c.create_token(&first, n(100), true), Ok(1));
    assert_eq!(c.create_token(&second, n(200), true), Ok(2));
    assert_eq!(c.balance(&first, 1), n(100));
    assert_eq!(c.balance(&first, 2), n(0));
    assert_eq!(c.balance(&second, 2), n(200));
    assert_eq!(c.balance(&second, 1), n(0));
    assert_eq!(c.token_type_creator(1), Some(first));
    assert_eq!(c.token_type_creator(2), Some(second));
}

#[test]
fn mint_fungible() {
    let mut c = Erc1155Contract::init();
    let creator = addr(1);
    c.create_token(&creator, n(100), true).unwrap();
    assert_eq!(c.mint(&creator, 1, n(50)), Ok(()));
    assert_eq!(c.balance(&creator, 1), n(150));
    assert_eq!(c.token_owner(1, 1), None);
}

#[test]
fn mint_nonfungible() {
    let mut c = Erc1155Contract::init();
    let creator = addr(1);
    c.create_token(&creator, n(2), false).unwrap();
    assert_eq!(c.mint(&creator, 1, n(3)), Ok(()));
    assert_eq!(c.balance(&creator, 1), n(5));
    assert_eq!(c.last_valid_nft_type_id(1), 5);
    for nft in 1..=5u128 {
        assert_eq!(c.token_owner(1, nft), Some(creator));
    }
    assert_eq!(c.token_owner(1, 6), None);
}

#[test]
fn burn_fungible() {
    let mut c = Erc1155Contract::init();
    let creator = addr(1);
    c.create_token(&creator, n(100), true).unwrap();
    assert_eq!(c.burn(&creator, 1, n(40)), Ok(()));
    assert_eq!(c.balance(&creator, 1), n(60));
    assert_eq!(c.burn(&creator, 1, n(60)), Ok(()));
    assert_eq!(c.balance(&creator, 1), n(0));
}

#[test]
fn burn_nonfungible() {
    let mut c = Erc1155Contract::init();
    let creator = addr(1);
    c.create_token(&creator, n(2), false).unwrap();
    let err = c.burn(&creator, 1, n(1)).unwrap_err();
    assert_eq!(err.message(), "Only fungible tokens can be burned");
    assert_eq!(c.balance(&creator, 1), n(2));
}

#[test]
fn transfer_fungible() {
    let mut c = Erc1155Contract::init();
    let (a, b) = (addr(1), addr(2));
    c.create_token(&a, n(100), true).unwrap();
    assert_eq!(c.safe_transfer_from(&a, &a, &b, 1, n(30)), Ok(()));
    assert_eq!(c.balance(&a, 1), n(70));
    assert_eq!(c.balance(&b, 1), n(30));
}

#[test]
fn transfer_nonfungible() {
    let mut c = Erc1155Contract::init();
    let (a, b) = (addr(1), addr(2));
    c.create_token(&a, n(2), false).unwrap();
    assert_eq!(c.safe_transfer_from(&a, &a, &b, 1, n(2)), Ok(()));
    assert_eq!(c.token_owner(1, 2), Some(b));
    assert_eq!(c.token_owner(1, 1), Some(a));
    assert_eq!(c.balance(&a, 1), n(1));
    assert_eq!(c.balance(&b, 1), n(1));
}

#[test]
fn batch_tranfer_two_fungible() {
    let mut c = Erc1155Contract::init();
    let (a, b) = (addr(1), addr(2));
    c.create_token(&a, n(100), true).unwrap();
    c.create_token(&a, n(200), true).unwrap();
    assert_eq!(c.batch_transfer_from(&a, &a, &b, &vec![1, 2], &vec![n(10), n(20)]), Ok(()));
    assert_eq!(c.balance(&b, 1), n(10));
    assert_eq!(c.balance(&b, 2), n(20));
    // A fungible pair of a batch credits the receiver and leaves the sender's balance as it was.
    assert_eq!(c.balance(&a, 1), n(100));
    assert_eq!(c.balance(&a, 2), n(200));
}
