use sc_contracts::erc1155::{Erc1155, Erc1155Contract, Erc1155Error};
use sc_contracts::bignat::BigNat;
use sc_contracts::types::{Address, Amount};

fn n(x: u128) -> Amount {
    BigNat::from_u128(x)
}

fn addr(n: u8) -> Address {
    Address::from_bytes([n; 32])
}

#[test]
fn erc_1155_test_init_test() {
    let c = Erc1155Contract::init();
    assert_eq!(c.last_valid_type_id(), 0);
}

#[test]
fn deposit_ok() {
    let mut c = Erc1155Contract::init();
    let user = addr(7);
    let amount: u128 = 1000000;
    assert_eq!(c.deposit(&user, n(amount)), Ok(()));
    assert_eq!(c.esdt_tokens_balance(), n(1000000));
}

#[test]
fn deposit_creates_and_mints_a_nonfungible_type() {
    let mut c = Erc1155Contract::init();
    let user = addr(7);
    assert_eq!(c.deposit(&user, n(3)), Ok(()));
    assert_eq!(c.last_valid_type_id(), 1);
    assert!(!c.is_fungible(1));
    assert_eq!(c.token_type_creator(1), Some(user));
    // Created with 3 NFTs, then 3 more minted.
    assert_eq!(c.balance(&user, 1), n(6));
    assert_eq!(c.last_valid_nft_type_id(1), 6);
    assert_eq!(c.token_owner(1, 6), Some(user));
    assert_eq!(c.deposit(&user, n(2)), Ok(()));
    assert_eq!(c.esdt_tokens_balance(), n(5));
    assert_eq!(c.last_valid_type_id(), 2);
}

fn two_to_128() -> Amount {
    BigNat::from_limbs(vec![0, 0, 1])
}

#[test]
fn deposit_too_large_to_number_its_nfts_is_refused() {
    let mut c = Erc1155Contract::init();
    let user = addr(7);
    assert_eq!(c.deposit(&user, n(1)), Ok(()));
    let err = c.deposit(&user, two_to_128()).unwrap_err();
    assert_eq!(err, Erc1155Error::IdOverflow);
    assert_eq!(err.message(), "id overflow");
    assert_eq!(c.esdt_tokens_balance(), n(1));
    assert_eq!(c.last_valid_type_id(), 1);
}

#[test]
fn balances_grow_past_u128() {
    let mut c = Erc1155Contract::init();
    let (a, b) = (addr(1), addr(2));
    c.create_token(&a, n(u128::MAX), true).unwrap();
    assert_eq!(c.safe_transfer_from(&a, &a, &b, 1, n(u128::MAX)), Ok(()));
    // Between an account and itself the balance passes 2^129 - 2 on the way and comes back.
    assert_eq!(c.safe_transfer_from_fungible(&b, &b, 1, n(u128::MAX)), Ok(()));
    c.transfer_callback(&a, &b, &vec![1], &vec![n(1)], true);
    assert_eq!(c.balance(&b, 1), two_to_128());
    assert_eq!(c.burn(&b, 1, two_to_128()), Ok(()));
    assert_eq!(c.balance(&b, 1), n(0));
}

#[test]
fn withdraw_sends_the_listed_amounts() {
    let mut c = Erc1155Contract::init();
    let user = addr(7);
    c.create_token(&user, n(100), true).unwrap();
    let sent = c.withdraw(&user, 1, &vec![1, 1], &vec![n(30), n(20)]).unwrap();
    assert_eq!(sent, vec![(1, n(30)), (1, n(20))]);
    assert_eq!(c.balance(&user, 1), n(50));
}

#[test]
fn withdraw_of_another_type_is_refused() {
    let mut c = Erc1155Contract::init();
    let user = addr(7);
    c.create_token(&user, n(100), true).unwrap();
    c.create_token(&user, n(100), true).unwrap();
    let err = c.withdraw(&user, 1, &vec![1, 2], &vec![n(10), n(10)]).unwrap_err();
    assert_eq!(err, Erc1155Error::TypeMismatch);
    assert_eq!(err.message(), "The token type id provided is corresponding to the payment token");
    // Nothing changed: the first pair was not kept.
    assert_eq!(c.balance(&user, 1), n(100));
}

#[test]
fn withdraw_more_than_held_is_refused() {
    let mut c = Erc1155Contract::init();
    let user = addr(7);
    c.create_token(&user, n(100), true).unwrap();
    assert_eq!(c.withdraw(&user, 1, &vec![1], &vec![n(101)]), Err(Erc1155Error::InsufficientBalance));
    assert_eq!(c.withdraw(&addr(8), 1, &vec![1], &vec![n(1)]), Err(Erc1155Error::BalanceNotFound));
    assert_eq!(c.balance(&user, 1), n(100));
}

#[test]
fn withdraw_zips_to_the_shorter_list() {
    let mut c = Erc1155Contract::init();
    let user = addr(7);
    c.create_token(&user, n(100), true).unwrap();
    assert_eq!(c.withdraw(&user, 1, &vec![1, 1, 1], &vec![n(5)]), Ok(vec![(1, n(5))]));
    assert_eq!(c.balance(&user, 1), n(95));
}

#[test]
fn transfer_to_zero_address_is_refused() {
    let mut c = Erc1155Contract::init();
    let a = addr(1);
    c.create_token(&a, n(100), true).unwrap();
    let err = c.safe_transfer_from(&a, &a, &Address::zero(), 1, n(1)).unwrap_err();
    assert_eq!(err, Erc1155Error::ZeroDestination);
    assert_eq!(err.message(), "Tokens can't be trasfered to the zero address");
}

#[test]
fn transfer_of_unknown_type_is_refused() {
    let mut c = Erc1155Contract::init();
    let a = addr(1);
    assert_eq!(c.safe_transfer_from(&a, &a, &addr(2), 1, n(1)), Err(Erc1155Error::InvalidTypeId));
    assert_eq!(c.safe_transfer_from(&a, &a, &addr(2), 0, n(1)), Err(Erc1155Error::InvalidTypeId));
}

#[test]
fn transfer_without_permission_is_refused() {
    let mut c = Erc1155Contract::init();
    let (a, b) = (addr(1), addr(2));
    c.create_token(&a, n(100), true).unwrap();
    assert!(!c.has_permission(&b, &a));
    let err = c.safe_transfer_from(&b, &a, &b, 1, n(10)).unwrap_err();
    assert_eq!(err, Erc1155Error::NoPermission);
    assert_eq!(c.balance(&a, 1), n(100));
}

#[test]
fn transfer_of_nothing_or_too_much_is_refused() {
    let mut c = Erc1155Contract::init();
    let (a, b) = (addr(1), addr(2));
    c.create_token(&a, n(100), true).unwrap();
    assert_eq!(c.safe_transfer_from(&a, &a, &b, 1, n(0)), Err(Erc1155Error::ZeroAmount));
    assert_eq!(c.safe_transfer_from(&a, &a, &b, 1, n(101)), Err(Erc1155Error::NotEnoughBalance));
    assert_eq!(c.balance(&b, 1), n(0));
}

#[test]
fn transfer_of_foreign_or_missing_nft_is_refused() {
    let mut c = Erc1155Contract::init();
    let (a, b) = (addr(1), addr(2));
    c.create_token(&a, n(2), false).unwrap();
    assert_eq!(c.safe_transfer_from(&b, &b, &a, 1, n(1)), Err(Erc1155Error::NotNftOwner));
    assert_eq!(c.safe_transfer_from(&a, &a, &b, 1, n(3)), Err(Erc1155Error::InvalidNftId));
    assert_eq!(c.token_owner(1, 1), Some(a));
}

#[test]
fn direct_fungible_transfer_moves_amount() {
    let mut c = Erc1155Contract::init();
    let (a, b) = (addr(1), addr(2));
    c.create_token(&a, n(10), true).unwrap();
    assert_eq!(c.safe_transfer_from_fungible(&a, &b, 1, n(4)), Ok(()));
    assert_eq!(c.balance(&a, 1), n(6));
    assert_eq!(c.balance(&b, 1), n(4));
}

#[test]
fn direct_nft_transfer_moves_owner() {
    let mut c = Erc1155Contract::init();
    let (a, b) = (addr(1), addr(2));
    c.create_token(&a, n(1), false).unwrap();
    assert_eq!(c.safe_transfer_from_non_fungible(&a, &b, 1, 1), Ok(()));
    assert_eq!(c.token_owner(1, 1), Some(b));
    assert_eq!(c.safe_transfer_from_non_fungible(&a, &b, 1, 1), Err(Erc1155Error::NotNftOwner));
}

#[test]
fn batch_errors() {
    let mut c = Erc1155Contract::init();
    let (a, b) = (addr(1), addr(2));
    c.create_token(&a, n(100), true).unwrap();
    let err = c.batch_transfer_from(&b, &a, &b, &vec![1], &vec![n(1)]).unwrap_err();
    assert_eq!(err, Erc1155Error::NotApproved);
    assert_eq!(err.message(), "Calles is not approved to transfer tokens from address");
    assert_eq!(
        c.batch_transfer_from(&a, &a, &Address::zero(), &vec![1], &vec![n(1)]),
        Err(Erc1155Error::ZeroDestinationBatch)
    );
    assert_eq!(c.batch_transfer_from(&a, &a, &b, &vec![], &vec![n(1)]), Err(Erc1155Error::EmptyBatch));
    assert_eq!(c.batch_transfer_from(&a, &a, &b, &vec![1, 1], &vec![n(1)]), Err(Erc1155Error::LengthMismatch));
    // The second pair fails: nothing of the first pair is kept.
    assert_eq!(c.batch_transfer_from(&a, &a, &b, &vec![1, 1], &vec![n(1), n(0)]), Err(Erc1155Error::ZeroAmount));
    assert_eq!(c.balance(&b, 1), n(0));
}

#[test]
fn batch_nonfungible_pair_gives_the_nft_to_the_sender() {
    let mut c = Erc1155Contract::init();
    let (a, b) = (addr(1), addr(2));
    c.create_token(&b, n(2), false).unwrap();
    assert_eq!(c.batch_transfer_from(&a, &a, &b, &vec![1], &vec![n(2)]), Ok(()));
    assert_eq!(c.token_owner(1, 2), Some(a));
    assert_eq!(c.balance(&b, 1), n(1));
}

#[test]
fn mint_errors() {
    let mut c = Erc1155Contract::init();
    let (a, b) = (addr(1), addr(2));
    assert_eq!(c.mint(&a, 1, n(1)), Err(Erc1155Error::MissingAddress));
    c.create_token(&a, n(u128::MAX), true).unwrap();
    let err = c.mint(&b, 1, n(1)).unwrap_err();
    assert_eq!(err, Erc1155Error::NotCreator);
    assert_eq!(err.message(), "Only the token creator may mint more tokens");
    assert_eq!(c.mint(&a, 1, n(1)), Ok(()));
    assert_eq!(c.balance(&a, 1), two_to_128());
    c.create_token(&a, n(1), false).unwrap();
    assert_eq!(c.mint(&a, 2, n(u128::MAX)), Err(Erc1155Error::IdOverflow));
    assert_eq!(c.mint(&a, 2, two_to_128()), Err(Erc1155Error::IdOverflow));
    assert_eq!(c.last_valid_nft_type_id(2), 1);
}

#[test]
fn burn_errors() {
    let mut c = Erc1155Contract::init();
    let (a, b) = (addr(1), addr(2));
    c.create_token(&a, n(10), true).unwrap();
    assert_eq!(c.burn(&a, 1, n(11)), Err(Erc1155Error::NotEnoughToBurn));
    assert_eq!(c.burn(&b, 1, n(0)), Err(Erc1155Error::BalanceNotFound));
    assert_eq!(c.burn(&a, 2, n(1)), Err(Erc1155Error::NotFungible));
    assert_eq!(c.balance(&a, 1), n(10));
}

#[test]
fn callback_credits_receiver_or_sender() {
    let mut c = Erc1155Contract::init();
    let (a, b) = (addr(1), addr(2));
    c.create_token(&a, n(10), true).unwrap();
    c.create_token(&a, n(2), false).unwrap();
    c.transfer_callback(&a, &b, &vec![1, 2], &vec![n(5), n(9)], true);
    assert_eq!(c.balance(&b, 1), n(5));
    assert_eq!(c.balance(&b, 2), n(1));
    c.transfer_callback(&a, &b, &vec![1], &vec![n(3)], false);
    assert_eq!(c.balance(&a, 1), n(13));
    assert_eq!(c.balance(&b, 1), n(5));
}

#[test]
fn error_messages() {
    assert_eq!(Erc1155Error::EmptyBatch.message(), "There were no type_ids and values provided");
    assert_eq!(Erc1155Error::LengthMismatch.message(), "The length of type_ids and values don't match");
    assert_eq!(Erc1155Error::NotEnoughToBurn.message(), "Not enough tokens to burn");
    assert_eq!(
        Erc1155Error::InsufficientBalance.message(),
        "Balance has to be at greater or equal than the amount sent"
    );
}

#[test]
fn recorded_balance_or_not_found() {
    let mut c = Erc1155Contract::init();
    let (a, b) = (addr(1), addr(2));
    c.create_token(&a, n(10), true).unwrap();
    assert_eq!(c.get_balance_for_type_id(&a, 1), Ok(n(10)));
    let err = c.get_balance_for_type_id(&b, 1).unwrap_err();
    assert_eq!(err, Erc1155Error::BalanceNotFound);
    assert_eq!(err.message(), "Error: Unable to retrieve balance for the given type ID");
    // A balance read of an account never credited is zero, but it is not recorded.
    assert_eq!(c.balance(&b, 1), n(0));
}
