//! The ERC-1155 style multi-token contract: token types are created by an account,
//! fungible types hold balances, non-fungible types also record an owner per NFT id.
use vstd::prelude::*;
use crate::table::Table;
use crate::bignat::BigNat;
use crate::subscription::lemma_map_values_insert;
use crate::types::{zero_address, Address, Amount};

verus! {

/// Why an ERC-1155 call is refused.
#[derive(Clone, Copy, Debug, PartialEq, Eq)]
pub enum Erc1155Error {
    /// Single transfer to the zero address.
    ZeroDestination,
    /// The type id was never created.
    InvalidTypeId,
    /// The caller may not move the sender's tokens (single transfer).
    NoPermission,
    /// A fungible transfer of nothing.
    ZeroAmount,
    /// The sender holds less than the amount.
    NotEnoughBalance,
    /// The NFT id does not exist for the type.
    InvalidNftId,
    /// The sender does not own the NFT.
    NotNftOwner,
    /// A balance would go negative.
    InsufficientBalance,
    /// The owner never held the type.
    BalanceNotFound,
    /// The caller may not move the sender's tokens (batch transfer).
    NotApproved,
    /// Batch transfer to the zero address.
    ZeroDestinationBatch,
    /// A batch without type ids or values.
    EmptyBatch,
    /// A batch whose type ids and values differ in number.
    LengthMismatch,
    /// Only the creator of a type mints more of it.
    NotCreator,
    /// A stored address that was never written cannot be read.
    MissingAddress,
    /// Only fungible types can be burned.
    NotFungible,
    /// The caller holds less than the amount to burn.
    NotEnoughToBurn,
    /// A withdrawn type is not the token that was paid.
    TypeMismatch,
    /// A type id or NFT id would pass 2^128 - 1.
    IdOverflow,
}

/// The message a refused call fails with.
pub open spec fn erc1155_error_message(e: Erc1155Error) -> Seq<char> {
    match e {
        Erc1155Error::ZeroDestination => "Tokens can't be trasfered to the zero address"@,
        Erc1155Error::InvalidTypeId => "Token id is invalid"@,
        Erc1155Error::NoPermission => "Caller has no permissions to transfer tokens from address"@,
        Erc1155Error::ZeroAmount => "Must transfer more than 0"@,
        Erc1155Error::NotEnoughBalance => "Not enough balance for it"@,
        Erc1155Error::InvalidNftId => "The Id for this NFT is not valid"@,
        Erc1155Error::NotNftOwner => "Sender is not the owner of the NFT"@,
        Erc1155Error::InsufficientBalance => "Balance has to be at greater or equal than the amount sent"@,
        Erc1155Error::BalanceNotFound => "Error: Unable to retrieve balance for the given type ID"@,
        Erc1155Error::NotApproved => "Calles is not approved to transfer tokens from address"@,
        Erc1155Error::ZeroDestinationBatch => "Tokens can't be sent to the zero address"@,
        Erc1155Error::EmptyBatch => "There were no type_ids and values provided"@,
        Erc1155Error::LengthMismatch => "The length of type_ids and values don't match"@,
        Erc1155Error::NotCreator => "Only the token creator may mint more tokens"@,
        Erc1155Error::MissingAddress => "storage decode error: bad array length"@,
        Erc1155Error::NotFungible => "Only fungible tokens can be burned"@,
        Erc1155Error::NotEnoughToBurn => "Not enough tokens to burn"@,
        Erc1155Error::TypeMismatch => "The token type id provided is corresponding to the payment token"@,
        Erc1155Error::IdOverflow => "id overflow"@,
    }
}

impl Erc1155Error {
    pub fn message(&self) -> (m: &'static str)
        ensures
            m@ == erc1155_error_message(*self),
    {
        match self {
            Erc1155Error::ZeroDestination => "Tokens can't be trasfered to the zero address",
            Erc1155Error::InvalidTypeId => "Token id is invalid",
            Erc1155Error::NoPermission => "Caller has no permissions to transfer tokens from address",
            Erc1155Error::ZeroAmount => "Must transfer more than 0",
            Erc1155Error::NotEnoughBalance => "Not enough balance for it",
            Erc1155Error::InvalidNftId => "The Id for this NFT is not valid",
            Erc1155Error::NotNftOwner => "Sender is not the owner of the NFT",
            Erc1155Error::InsufficientBalance => "Balance has to be at greater or equal than the amount sent",
            Erc1155Error::BalanceNotFound => "Error: Unable to retrieve balance for the given type ID",
            Erc1155Error::NotApproved => "Calles is not approved to transfer tokens from address",
            Erc1155Error::ZeroDestinationBatch => "Tokens can't be sent to the zero address",
            Erc1155Error::EmptyBatch => "There were no type_ids and values provided",
            Erc1155Error::LengthMismatch => "The length of type_ids and values don't match",
            Erc1155Error::NotCreator => "Only the token creator may mint more tokens",
            Erc1155Error::MissingAddress => "storage decode error: bad array length",
            Erc1155Error::NotFungible => "Only fungible tokens can be burned",
            Erc1155Error::NotEnoughToBurn => "Not enough tokens to burn",
            Erc1155Error::TypeMismatch => "The token type id provided is corresponding to the payment token",
            Erc1155Error::IdOverflow => "id overflow",
        }
    }
}

/// The contract's storage as mathematical values. A key missing from a map is
/// storage that was never written.
pub struct Erc1155State {
    pub last_valid_type_id: u128,
    pub token_type_creator: Map<u128, Address>,
    pub is_fungible: Map<u128, bool>,
    pub last_valid_nft_type_id: Map<u128, u128>,
    pub token_owner: Map<(u128, u128), Address>,
    pub balances: Map<(Address, u128), nat>,
    pub has_permission: Map<(Address, Address), bool>,
    pub esdt_tokens_balance: nat,
}

pub open spec fn fungible_of(s: Erc1155State, t: u128) -> bool {
    s.is_fungible.contains_key(t) && s.is_fungible[t]
}

pub open spec fn last_nft_of(s: Erc1155State, t: u128) -> u128 {
    if s.last_valid_nft_type_id.contains_key(t) {
        s.last_valid_nft_type_id[t]
    } else {
        0
    }
}

/// Balance of `owner` in type `t`, 0 when never set.
pub open spec fn balance_of(s: Erc1155State, owner: Address, t: u128) -> nat {
    if s.balances.contains_key((owner, t)) {
        s.balances[(owner, t)]
    } else {
        0
    }
}

pub open spec fn permission_of(s: Erc1155State, operator: Address, owner: Address) -> bool {
    s.has_permission.contains_key((operator, owner)) && s.has_permission[(operator, owner)]
}

pub open spec fn valid_type_id(s: Erc1155State, t: u128) -> bool {
    0 < t <= s.last_valid_type_id
}

pub open spec fn valid_nft_id(s: Erc1155State, t: u128, n: u128) -> bool {
    valid_type_id(s, t) && 0 < n <= last_nft_of(s, t)
}

/// Every recorded NFT owner belongs to an existing NFT id, and every recorded
/// creator to an existing type.
pub open spec fn erc_inv(s: Erc1155State) -> bool {
    &&& forall|k: (u128, u128)| #[trigger] s.token_owner.contains_key(k) ==> valid_nft_id(s, k.0, k.1)
    &&& forall|t: u128| #[trigger] s.token_type_creator.contains_key(t) ==> valid_type_id(s, t)
}

pub open spec fn with_balance(s: Erc1155State, owner: Address, t: u128, v: nat) -> Erc1155State {
    Erc1155State { balances: s.balances.insert((owner, t), v), ..s }
}

pub open spec fn with_owner(s: Erc1155State, t: u128, n: u128, owner: Address) -> Erc1155State {
    Erc1155State { token_owner: s.token_owner.insert((t, n), owner), ..s }
}

/// Owners after NFT ids `start..=end` of type `t` are all given to `owner`.
pub open spec fn owners_with_range(
    owners: Map<(u128, u128), Address>,
    t: u128,
    start: int,
    end: int,
    owner: Address,
) -> Map<(u128, u128), Address> {
    Map::new(
        |k: (u128, u128)| owners.contains_key(k) || (k.0 == t && start <= k.1 <= end),
        |k: (u128, u128)|
            if k.0 == t && start <= k.1 <= end {
                owner
            } else {
                owners[k]
            },
    )
}

/// `owner` gets `amount` more of type `t`.
pub open spec fn increase_balance_result(s: Erc1155State, owner: Address, t: u128, amount: nat) -> Erc1155State {
    with_balance(s, owner, t, balance_of(s, owner, t) + amount)
}

pub open spec fn decrease_balance_result(s: Erc1155State, owner: Address, t: u128, amount: nat) -> Result<Erc1155State, Erc1155Error> {
    if !s.balances.contains_key((owner, t)) {
        Err(Erc1155Error::BalanceNotFound)
    } else if s.balances[(owner, t)] < amount {
        Err(Erc1155Error::InsufficientBalance)
    } else {
        Ok(with_balance(s, owner, t, (s.balances[(owner, t)] - amount) as nat))
    }
}

/// The checks before a fungible amount leaves `owner`.
pub open spec fn fungible_check_result(s: Erc1155State, owner: Address, t: u128, amount: nat) -> Result<(), Erc1155Error> {
    if !(amount > 0) {
        Err(Erc1155Error::ZeroAmount)
    } else if !(amount <= balance_of(s, owner, t)) {
        Err(Erc1155Error::NotEnoughBalance)
    } else {
        Ok(())
    }
}

/// NFT `n` of type `t` leaves `owner`: checks, one unit less, owner reset to zero.
/// An id past every NFT id (all of which fit in a `u128`) is not valid.
pub open spec fn take_nft_result(s: Erc1155State, owner: Address, t: u128, n: nat) -> Result<Erc1155State, Erc1155Error> {
    if !(n <= u128::MAX && valid_nft_id(s, t, n as u128)) {
        Err(Erc1155Error::InvalidNftId)
    } else if !s.token_owner.contains_key((t, n as u128)) {
        Err(Erc1155Error::MissingAddress)
    } else if s.token_owner[(t, n as u128)] != owner {
        Err(Erc1155Error::NotNftOwner)
    } else {
        match decrease_balance_result(s, owner, t, 1) {
            Err(e) => Err(e),
            Ok(s1) => Ok(with_owner(s1, t, n as u128, zero_address())),
        }
    }
}

/// The state after moving `amount` of fungible type `t` from `from` to `to`.
pub open spec fn transfer_fungible_result(s: Erc1155State, from: Address, to: Address, t: u128, amount: nat) -> Result<Erc1155State, Erc1155Error> {
    match fungible_check_result(s, from, t, amount) {
        Err(e) => Err(e),
        Ok(_) => decrease_balance_result(increase_balance_result(s, to, t, amount), from, t, amount),
    }
}

/// The state after moving NFT `n` of type `t` from `from` to `to`.
pub open spec fn transfer_non_fungible_result(s: Erc1155State, from: Address, to: Address, t: u128, n: nat) -> Result<Erc1155State, Erc1155Error> {
    match take_nft_result(s, from, t, n) {
        Err(e) => Err(e),
        Ok(s1) => Ok(with_owner(increase_balance_result(s1, to, t, 1), t, n as u128, to)),
    }
}

/// The state after a checked single transfer requested by `caller`.
pub open spec fn safe_transfer_result(
    s: Erc1155State,
    caller: Address,
    from: Address,
    to: Address,
    t: u128,
    value: nat,
) -> Result<Erc1155State, Erc1155Error> {
    if to.spec_is_zero() {
        Err(Erc1155Error::ZeroDestination)
    } else if !valid_type_id(s, t) {
        Err(Erc1155Error::InvalidTypeId)
    } else if !(caller == from || permission_of(s, caller, from)) {
        Err(Erc1155Error::NoPermission)
    } else if fungible_of(s, t) {
        transfer_fungible_result(s, from, to, t, value)
    } else {
        transfer_non_fungible_result(s, from, to, t, value)
    }
}

/// One pair of a batch transfer. A fungible pair credits `to` after checking `from`'s
/// balance; a non-fungible pair takes NFT `value` from `to` and gives it to `from`.
pub open spec fn batch_step_result(s: Erc1155State, from: Address, to: Address, t: u128, value: nat) -> Result<Erc1155State, Erc1155Error> {
    if fungible_of(s, t) {
        match fungible_check_result(s, from, t, value) {
            Err(e) => Err(e),
            Ok(_) => Ok(increase_balance_result(s, to, t, value)),
        }
    } else {
        match take_nft_result(s, to, t, value) {
            Err(e) => Err(e),
            Ok(s1) => Ok(with_owner(s1, t, value as u128, from)),
        }
    }
}

/// The first `n` pairs of a batch, applied in order; the first refused pair decides.
pub open spec fn batch_fold(s: Erc1155State, from: Address, to: Address, type_ids: Seq<u128>, values: Seq<nat>, n: nat) -> Result<Erc1155State, Erc1155Error>
    decreases n,
{
    if n == 0 {
        Ok(s)
    } else {
        match batch_fold(s, from, to, type_ids, values, (n - 1) as nat) {
            Err(e) => Err(e),
            Ok(s1) => batch_step_result(s1, from, to, type_ids[n - 1], values[n - 1]),
        }
    }
}

/// The state after a batch transfer requested by `caller`.
pub open spec fn batch_transfer_result(
    s: Erc1155State,
    caller: Address,
    from: Address,
    to: Address,
    type_ids: Seq<u128>,
    values: Seq<nat>,
) -> Result<Erc1155State, Erc1155Error> {
    if !(caller == from || permission_of(s, caller, from)) {
        Err(Erc1155Error::NotApproved)
    } else if to.spec_is_zero() {
        Err(Erc1155Error::ZeroDestinationBatch)
    } else if !(type_ids.len() != 0 && values.len() != 0) {
        Err(Erc1155Error::EmptyBatch)
    } else if type_ids.len() != values.len() {
        Err(Erc1155Error::LengthMismatch)
    } else {
        batch_fold(s, from, to, type_ids, values, type_ids.len())
    }
}

/// The state and new type id after `creator` creates a type with `initial_supply` units.
/// Type ids and NFT ids are `u128`: a chain cannot run the 2^128 creations, or the
/// 2^128 owner writes, that would take one past it.
pub open spec fn create_token_result(s: Erc1155State, creator: Address, initial_supply: nat, is_fungible: bool) -> Result<(Erc1155State, u128), Erc1155Error> {
    if s.last_valid_type_id == u128::MAX {
        Err(Erc1155Error::IdOverflow)
    } else if !is_fungible && initial_supply > u128::MAX {
        Err(Erc1155Error::IdOverflow)
    } else {
        let t = (s.last_valid_type_id + 1) as u128;
        let s1 = Erc1155State {
            balances: s.balances.insert((creator, t), initial_supply),
            token_type_creator: s.token_type_creator.insert(t, creator),
            is_fungible: s.is_fungible.insert(t, is_fungible),
            ..s
        };
        let s2 = if is_fungible {
            s1
        } else {
            Erc1155State {
                token_owner: owners_with_range(s1.token_owner, t, 1, initial_supply as int, creator),
                last_valid_nft_type_id: s1.last_valid_nft_type_id.insert(t, initial_supply as u128),
                ..s1
            }
        };
        Ok((Erc1155State { last_valid_type_id: t, ..s2 }, t))
    }
}

/// The state after `caller` mints `amount` more units of type `t`.
pub open spec fn mint_result(s: Erc1155State, caller: Address, t: u128, amount: nat) -> Result<Erc1155State, Erc1155Error> {
    if !s.token_type_creator.contains_key(t) {
        Err(Erc1155Error::MissingAddress)
    } else if caller != s.token_type_creator[t] {
        Err(Erc1155Error::NotCreator)
    } else {
        let creator = s.token_type_creator[t];
        let s1 = increase_balance_result(s, creator, t, amount);
        if fungible_of(s1, t) {
            Ok(s1)
        } else {
            let last = last_nft_of(s1, t);
            if last + amount > u128::MAX {
                Err(Erc1155Error::IdOverflow)
            } else {
                Ok(
                    Erc1155State {
                        token_owner: owners_with_range(s1.token_owner, t, last + 1, last + amount, creator),
                        last_valid_nft_type_id: s1.last_valid_nft_type_id.insert(t, (last + amount) as u128),
                        ..s1
                    },
                )
            }
        }
    }
}

/// The state after `caller` burns `amount` of fungible type `t`.
pub open spec fn burn_result(s: Erc1155State, caller: Address, t: u128, amount: nat) -> Result<Erc1155State, Erc1155Error> {
    if !fungible_of(s, t) {
        Err(Erc1155Error::NotFungible)
    } else if !(balance_of(s, caller, t) >= amount) {
        Err(Erc1155Error::NotEnoughToBurn)
    } else {
        decrease_balance_result(s, caller, t, amount)
    }
}

/// One pair of a transfer callback: credit `dest` with the amount (fungible) or one unit.
pub open spec fn callback_step_result(s: Erc1155State, dest: Address, t: u128, value: nat) -> Erc1155State {
    if fungible_of(s, t) {
        increase_balance_result(s, dest, t, value)
    } else {
        increase_balance_result(s, dest, t, 1)
    }
}

/// The first `n` pairs of a callback, applied in order.
pub open spec fn callback_fold(s: Erc1155State, dest: Address, type_ids: Seq<u128>, values: Seq<nat>, n: nat) -> Erc1155State
    decreases n,
{
    if n == 0 {
        s
    } else {
        callback_step_result(callback_fold(s, dest, type_ids, values, (n - 1) as nat), dest, type_ids[n - 1], values[n - 1])
    }
}

/// The number of pairs that zipping `a` and `b` yields.
pub open spec fn zip_len(a: nat, b: nat) -> nat {
    if a <= b {
        a
    } else {
        b
    }
}

/// The state after the callback of a transfer: the destination is `to` when the call
/// succeeded and `from` when it failed.
pub open spec fn transfer_callback_result(
    s: Erc1155State,
    from: Address,
    to: Address,
    type_ids: Seq<u128>,
    values: Seq<nat>,
    call_succeeded: bool,
) -> Erc1155State {
    let dest = if call_succeeded {
        to
    } else {
        from
    };
    callback_fold(s, dest, type_ids, values, zip_len(type_ids.len(), values.len()))
}

/// The state after `caller` deposits `amount` of an ESDT: the deposit is recorded,
/// a non-fungible type of `amount` NFTs is created for `caller`, and `caller` mints
/// `amount` more of it.
pub open spec fn deposit_result(s: Erc1155State, caller: Address, amount: nat) -> Result<Erc1155State, Erc1155Error> {
    let s1 = Erc1155State { esdt_tokens_balance: s.esdt_tokens_balance + amount, ..s };
    match create_token_result(s1, caller, amount, false) {
        Err(e) => Err(e),
        Ok((s2, _)) => mint_result(s2, caller, s2.last_valid_type_id, amount),
    }
}

/// One pair of a withdrawal: the type must be the paid token, and `caller` gives up `value`.
pub open spec fn withdraw_step_result(s: Erc1155State, caller: Address, payment_type_id: u128, t: u128, value: nat) -> Result<Erc1155State, Erc1155Error> {
    if t != payment_type_id {
        Err(Erc1155Error::TypeMismatch)
    } else {
        decrease_balance_result(s, caller, t, value)
    }
}

/// The first `n` pairs of a withdrawal, applied in order.
pub open spec fn withdraw_fold(s: Erc1155State, caller: Address, payment_type_id: u128, type_ids: Seq<u128>, values: Seq<nat>, n: nat) -> Result<Erc1155State, Erc1155Error>
    decreases n,
{
    if n == 0 {
        Ok(s)
    } else {
        match withdraw_fold(s, caller, payment_type_id, type_ids, values, (n - 1) as nat) {
            Err(e) => Err(e),
            Ok(s1) => withdraw_step_result(s1, caller, payment_type_id, type_ids[n - 1], values[n - 1]),
        }
    }
}

/// The pairs that a withdrawal sends back, in order.
pub open spec fn withdraw_sends(type_ids: Seq<u128>, values: Seq<nat>) -> Seq<(u128, nat)> {
    Seq::new(zip_len(type_ids.len(), values.len()), |i: int| (type_ids[i], values[i]))
}

/// The amounts as values.
pub open spec fn amounts_view(v: Seq<Amount>) -> Seq<nat> {
    v.map_values(|a: Amount| a@)
}

/// Sent pairs as values.
pub open spec fn sends_view(v: Seq<(u128, Amount)>) -> Seq<(u128, nat)> {
    v.map_values(|p: (u128, Amount)| (p.0, p.1@))
}

/// Once a withdrawal refuses a pair, the withdrawal as a whole is refused with that reason.
proof fn lemma_withdraw_err_persists(s: Erc1155State, caller: Address, payment_type_id: u128, type_ids: Seq<u128>, values: Seq<nat>, m: nat, n: nat)
    requires
        m <= n,
        withdraw_fold(s, caller, payment_type_id, type_ids, values, m) is Err,
    ensures
        withdraw_fold(s, caller, payment_type_id, type_ids, values, n) == withdraw_fold(s, caller, payment_type_id, type_ids, values, m),
    decreases n - m,
{
    if m < n {
        lemma_withdraw_err_persists(s, caller, payment_type_id, type_ids, values, m, (n - 1) as nat);
    }
}

/// Once a batch refuses a pair, the batch as a whole is refused with that reason.
proof fn lemma_batch_err_persists(s: Erc1155State, from: Address, to: Address, type_ids: Seq<u128>, values: Seq<nat>, m: nat, n: nat)
    requires
        m <= n,
        batch_fold(s, from, to, type_ids, values, m) is Err,
    ensures
        batch_fold(s, from, to, type_ids, values, n) == batch_fold(s, from, to, type_ids, values, m),
    decreases n - m,
{
    if m < n {
        lemma_batch_err_persists(s, from, to, type_ids, values, m, (n - 1) as nat);
    }
}

/// The invariant only reads owners and the last type and NFT ids.
proof fn lemma_inv_frame(s: Erc1155State, s2: Erc1155State)
    requires
        erc_inv(s),
        s2.token_owner == s.token_owner,
        s2.token_type_creator == s.token_type_creator,
        s2.last_valid_type_id == s.last_valid_type_id,
        s2.last_valid_nft_type_id == s.last_valid_nft_type_id,
    ensures
        erc_inv(s2),
{
    assert forall|k: (u128, u128)| #[trigger] s2.token_owner.contains_key(k) implies valid_nft_id(s2, k.0, k.1) by {
        assert(s.token_owner.contains_key(k));
    }
    assert forall|t: u128| #[trigger] s2.token_type_creator.contains_key(t) implies valid_type_id(s2, t) by {
        assert(s.token_type_creator.contains_key(t));
    }
}

/// Recording an owner for an existing NFT id keeps the invariant.
proof fn lemma_inv_with_owner(s: Erc1155State, t: u128, n: u128, owner: Address)
    requires
        erc_inv(s),
        valid_nft_id(s, t, n),
    ensures
        erc_inv(with_owner(s, t, n, owner)),
{
    let s2 = with_owner(s, t, n, owner);
    assert forall|k: (u128, u128)| #[trigger] s2.token_owner.contains_key(k) implies valid_nft_id(s2, k.0, k.1) by {
        if k != (t, n) {
            assert(s.token_owner.contains_key(k));
        }
    }
}

proof fn lemma_take_nft_inv(s: Erc1155State, owner: Address, t: u128, n: nat)
    requires
        erc_inv(s),
        take_nft_result(s, owner, t, n) is Ok,
    ensures
        erc_inv(take_nft_result(s, owner, t, n)->Ok_0),
        n <= u128::MAX,
        valid_nft_id(take_nft_result(s, owner, t, n)->Ok_0, t, n as u128),
        take_nft_result(s, owner, t, n)->Ok_0.last_valid_type_id == s.last_valid_type_id,
        take_nft_result(s, owner, t, n)->Ok_0.last_valid_nft_type_id == s.last_valid_nft_type_id,
{
    let s1 = decrease_balance_result(s, owner, t, 1)->Ok_0;
    lemma_inv_frame(s, s1);
    lemma_inv_with_owner(s1, t, n as u128, zero_address());
}

/// Every successful transition keeps the invariant: single and batch transfers,
/// creation, minting, burning, callbacks, deposits and withdrawals.
proof fn lemma_transfer_fungible_inv(s: Erc1155State, from: Address, to: Address, t: u128, amount: nat)
    requires
        erc_inv(s),
        transfer_fungible_result(s, from, to, t, amount) is Ok,
    ensures
        erc_inv(transfer_fungible_result(s, from, to, t, amount)->Ok_0),
{
    let s1 = increase_balance_result(s, to, t, amount);
    lemma_inv_frame(s, s1);
    lemma_inv_frame(s1, transfer_fungible_result(s, from, to, t, amount)->Ok_0);
}

proof fn lemma_transfer_nft_inv(s: Erc1155State, from: Address, to: Address, t: u128, n: nat)
    requires
        erc_inv(s),
        transfer_non_fungible_result(s, from, to, t, n) is Ok,
    ensures
        erc_inv(transfer_non_fungible_result(s, from, to, t, n)->Ok_0),
{
    lemma_take_nft_inv(s, from, t, n);
    let s1 = take_nft_result(s, from, t, n)->Ok_0;
    let s2 = increase_balance_result(s1, to, t, 1);
    lemma_inv_frame(s1, s2);
    lemma_inv_with_owner(s2, t, n as u128, to);
}

proof fn lemma_batch_fold_inv(s: Erc1155State, from: Address, to: Address, type_ids: Seq<u128>, values: Seq<nat>, n: nat)
    requires
        erc_inv(s),
        batch_fold(s, from, to, type_ids, values, n) is Ok,
    ensures
        erc_inv(batch_fold(s, from, to, type_ids, values, n)->Ok_0),
    decreases n,
{
    if n > 0 {
        lemma_batch_fold_inv(s, from, to, type_ids, values, (n - 1) as nat);
        let s1 = batch_fold(s, from, to, type_ids, values, (n - 1) as nat)->Ok_0;
        let t = type_ids[n - 1];
        let v = values[n - 1];
        if fungible_of(s1, t) {
            lemma_inv_frame(s1, batch_step_result(s1, from, to, t, v)->Ok_0);
        } else {
            lemma_take_nft_inv(s1, to, t, v);
            lemma_inv_with_owner(take_nft_result(s1, to, t, v)->Ok_0, t, v as u128, from);
        }
    }
}

proof fn lemma_callback_fold_inv(s: Erc1155State, dest: Address, type_ids: Seq<u128>, values: Seq<nat>, n: nat)
    requires
        erc_inv(s),
    ensures
        erc_inv(callback_fold(s, dest, type_ids, values, n)),
    decreases n,
{
    if n > 0 {
        lemma_callback_fold_inv(s, dest, type_ids, values, (n - 1) as nat);
        let s1 = callback_fold(s, dest, type_ids, values, (n - 1) as nat);
        lemma_inv_frame(s1, callback_fold(s, dest, type_ids, values, n));
    }
}

proof fn lemma_withdraw_fold_inv(s: Erc1155State, caller: Address, pt: u128, type_ids: Seq<u128>, values: Seq<nat>, n: nat)
    requires
        erc_inv(s),
        withdraw_fold(s, caller, pt, type_ids, values, n) is Ok,
    ensures
        erc_inv(withdraw_fold(s, caller, pt, type_ids, values, n)->Ok_0),
    decreases n,
{
    if n > 0 {
        lemma_withdraw_fold_inv(s, caller, pt, type_ids, values, (n - 1) as nat);
        let s1 = withdraw_fold(s, caller, pt, type_ids, values, (n - 1) as nat)->Ok_0;
        lemma_inv_frame(s1, withdraw_fold(s, caller, pt, type_ids, values, n)->Ok_0);
    }
}

proof fn lemma_create_inv(s: Erc1155State, creator: Address, supply: nat, is_fungible: bool)
    requires
        erc_inv(s),
        create_token_result(s, creator, supply, is_fungible) is Ok,
    ensures
        erc_inv(create_token_result(s, creator, supply, is_fungible)->Ok_0.0),
{
    let (s2, t) = create_token_result(s, creator, supply, is_fungible)->Ok_0;
    assert forall|k: (u128, u128)| #[trigger] s2.token_owner.contains_key(k) implies valid_nft_id(s2, k.0, k.1) by {
        if s.token_owner.contains_key(k) {
            assert(valid_nft_id(s, k.0, k.1));
            assert(k.0 != t);
        }
    }
    assert forall|u: u128| #[trigger] s2.token_type_creator.contains_key(u) implies valid_type_id(s2, u) by {
        if u != t {
            assert(s.token_type_creator.contains_key(u));
        }
    }
}

proof fn lemma_mint_inv(s: Erc1155State, caller: Address, t: u128, amount: nat)
    requires
        erc_inv(s),
        mint_result(s, caller, t, amount) is Ok,
    ensures
        erc_inv(mint_result(s, caller, t, amount)->Ok_0),
{
    let s2 = mint_result(s, caller, t, amount)->Ok_0;
    let s1 = increase_balance_result(s, s.token_type_creator[t], t, amount);
    lemma_inv_frame(s, s1);
    if !fungible_of(s1, t) {
        assert(s.token_type_creator.contains_key(t));
        assert(valid_type_id(s, t));
        assert forall|k: (u128, u128)| #[trigger] s2.token_owner.contains_key(k) implies valid_nft_id(s2, k.0, k.1) by {
            if s1.token_owner.contains_key(k) {
                assert(valid_nft_id(s1, k.0, k.1));
            }
        }
        assert forall|u: u128| #[trigger] s2.token_type_creator.contains_key(u) implies valid_type_id(s2, u) by {
            assert(s1.token_type_creator.contains_key(u));
        }
    }
}

/// The ERC-1155 contract's endpoints and views.
pub trait Erc1155: Sized {
    /// The storage is well formed.
    spec fn wf(&self) -> bool;

    /// Deploys the contract with no token types.
    fn init() -> (c: Self)
        ensures
            c.wf(),
    ;

    /// `caller` creates a new token type; returns its id.
    fn create_token(&mut self, caller: &Address, initial_supply: Amount, is_fungible: bool) -> (r: Result<u128, Erc1155Error>)
        requires
            old(self).wf(),
        ensures
            final(self).wf(),
    ;

    /// `caller` moves tokens of one type from `from` to `to`.
    fn safe_transfer_from(&mut self, caller: &Address, from: &Address, to: &Address, type_id: u128, value: Amount) -> (r: Result<(), Erc1155Error>)
        requires
            old(self).wf(),
        ensures
            final(self).wf(),
    ;

    /// Moves a fungible amount from `from` to `to`.
    fn safe_transfer_from_fungible(&mut self, from: &Address, to: &Address, type_id: u128, amount: Amount) -> (r: Result<(), Erc1155Error>)
        requires
            old(self).wf(),
        ensures
            final(self).wf(),
    ;

    /// Moves one NFT from `from` to `to`.
    fn safe_transfer_from_non_fungible(&mut self, from: &Address, to: &Address, type_id: u128, nft_id: u128) -> (r: Result<(), Erc1155Error>)
        requires
            old(self).wf(),
        ensures
            final(self).wf(),
    ;

    /// `caller` moves several (type, value) pairs from `from` to `to`.
    fn batch_transfer_from(&mut self, caller: &Address, from: &Address, to: &Address, type_ids: &Vec<u128>, values: &Vec<Amount>) -> (r: Result<(), Erc1155Error>)
        requires
            old(self).wf(),
        ensures
            final(self).wf(),
    ;

    /// The creator mints more of a type.
    fn mint(&mut self, caller: &Address, type_id: u128, amount: Amount) -> (r: Result<(), Erc1155Error>)
        requires
            old(self).wf(),
        ensures
            final(self).wf(),
    ;

    /// `caller` burns a fungible amount.
    fn burn(&mut self, caller: &Address, type_id: u128, amount: Amount) -> (r: Result<(), Erc1155Error>)
        requires
            old(self).wf(),
        ensures
            final(self).wf(),
    ;

    /// `caller` deposits an ESDT amount.
    fn deposit(&mut self, caller: &Address, amount: Amount) -> (r: Result<(), Erc1155Error>)
        requires
            old(self).wf(),
        ensures
            final(self).wf(),
    ;

    /// `caller` takes back amounts of the paid type.
    fn withdraw(&mut self, caller: &Address, payment_type_id: u128, type_ids: &Vec<u128>, values: &Vec<Amount>) -> (r: Result<Vec<(u128, Amount)>, Erc1155Error>)
        requires
            old(self).wf(),
        ensures
            final(self).wf(),
    ;

    /// Settles a transfer after the destination contract answered.
    fn transfer_callback(&mut self, from: &Address, to: &Address, type_ids: &Vec<u128>, values: &Vec<Amount>, call_succeeded: bool)
        requires
            old(self).wf(),
        ensures
            final(self).wf(),
    ;

    /// The recorded owner of an NFT.
    fn token_owner(&self, type_id: u128, nft_id: u128) -> (o: Option<Address>)
        requires
            self.wf(),
    ;

    /// Whether a type is fungible.
    fn is_fungible(&self, type_id: u128) -> (b: bool)
        requires
            self.wf(),
    ;

    /// The creator of a type.
    fn token_type_creator(&self, type_id: u128) -> (c: Option<Address>)
        requires
            self.wf(),
    ;

    /// Whether `operator` may move `owner`'s tokens.
    fn has_permission(&self, operator: &Address, owner: &Address) -> (b: bool)
        requires
            self.wf(),
    ;
}

/// The ERC-1155 contract's storage.
pub struct Erc1155Contract {
    last_valid_type_id: u128,
    token_type_creator: Table<u128, Address>,
    is_fungible: Table<u128, bool>,
    last_valid_nft_type_id: Table<u128, u128>,
    token_owner: Table<(u128, u128), Address>,
    balances: Table<(Address, u128), Amount>,
    has_permission: Table<(Address, Address), bool>,
    esdt_tokens_balance: Amount,
}

impl Erc1155Contract {
    pub closed spec fn view(&self) -> Erc1155State {
        Erc1155State {
            last_valid_type_id: self.last_valid_type_id,
            token_type_creator: self.token_type_creator@,
            is_fungible: self.is_fungible@,
            last_valid_nft_type_id: self.last_valid_nft_type_id@,
            token_owner: self.token_owner@,
            balances: self.balances@.map_values(|a: BigNat| a@),
            has_permission: self.has_permission@,
            esdt_tokens_balance: self.esdt_tokens_balance@,
        }
    }

    /// Each table is well formed.
    pub closed spec fn tables_wf(&self) -> bool {
        &&& self.token_type_creator.wf()
        &&& self.is_fungible.wf()
        &&& self.last_valid_nft_type_id.wf()
        &&& self.token_owner.wf()
        &&& self.balances.wf()
        &&& self.has_permission.wf()
    }

    /// Whether type `type_id` is fungible (false when never set).
    fn fungible_flag(&self, type_id: u128) -> (b: bool)
        requires
            self.tables_wf(),
        ensures
            b == fungible_of(self@, type_id),
    {
        match self.is_fungible.get(&type_id) {
            Some(b) => *b,
            None => false,
        }
    }

    fn duplicate(&self) -> (r: Erc1155Contract)
        requires
            self.tables_wf(),
        ensures
            r.tables_wf(),
            r@ == self@,
    {
        Erc1155Contract {
            last_valid_type_id: self.last_valid_type_id,
            token_type_creator: self.token_type_creator.duplicate(),
            is_fungible: self.is_fungible.duplicate(),
            last_valid_nft_type_id: self.last_valid_nft_type_id.duplicate(),
            token_owner: self.token_owner.duplicate(),
            balances: self.balances.duplicate_amounts(),
            has_permission: self.has_permission.duplicate(),
            esdt_tokens_balance: self.esdt_tokens_balance.dup(),
        }
    }

    /// Balance of `owner` in type `type_id` (0 when never set).
    pub fn balance(&self, owner: &Address, type_id: u128) -> (b: Amount)
        requires
            self.tables_wf(),
        ensures
            b@ == balance_of(self@, *owner, type_id),
    {
        match self.balances.get(&(*owner, type_id)) {
            Some(b) => b.dup(),
            None => BigNat::zero(),
        }
    }

    /// The last NFT id of type `type_id` (0 when never set).
    pub fn last_valid_nft_type_id(&self, type_id: u128) -> (n: u128)
        requires
            self.tables_wf(),
        ensures
            n == last_nft_of(self@, type_id),
    {
        match self.last_valid_nft_type_id.get(&type_id) {
            Some(n) => *n,
            None => 0,
        }
    }

    /// The last created type id.
    pub fn last_valid_type_id(&self) -> (n: u128)
        ensures
            n == self@.last_valid_type_id,
    {
        self.last_valid_type_id
    }

    /// The amount of ESDT deposited into the contract.
    pub fn esdt_tokens_balance(&self) -> (b: Amount)
        ensures
            b@ == self@.esdt_tokens_balance,
    {
        self.esdt_tokens_balance.dup()
    }

    /// `type_id` was created.
    pub fn is_valid_type_id(&self, type_id: u128) -> (b: bool)
        ensures
            b == valid_type_id(self@, type_id),
    {
        type_id > 0 && type_id <= self.last_valid_type_id
    }

    /// `nft_id` is an existing NFT id of type `type_id`.
    pub fn is_valid_nft_id(&self, type_id: u128, nft_id: u128) -> (b: bool)
        requires
            self.tables_wf(),
        ensures
            b == valid_nft_id(self@, type_id, nft_id),
    {
        self.is_valid_type_id(type_id) && nft_id > 0 && nft_id <= self.last_valid_nft_type_id(type_id)
    }

    fn set_balance(&mut self, owner: &Address, type_id: u128, value: Amount)
        requires
            old(self).tables_wf(),
        ensures
            final(self).tables_wf(),
            final(self)@ == with_balance(old(self)@, *owner, type_id, value@),
    {
        proof {
            lemma_map_values_insert(self.balances@, (*owner, type_id), value, |a: BigNat| a@);
        }
        self.balances.insert((*owner, type_id), value);
    }

    fn increase_balance(&mut self, owner: &Address, type_id: u128, amount: &Amount)
        requires
            old(self).tables_wf(),
        ensures
            final(self).tables_wf(),
            final(self)@ == increase_balance_result(old(self)@, *owner, type_id, amount@),
    {
        let balance = self.balance(owner, type_id);
        self.set_balance(owner, type_id, balance.add(amount));
    }

    /// The recorded balance of `owner` for `type_id`; refused when none was ever recorded.
    pub fn get_balance_for_type_id(&self, owner: &Address, type_id: u128) -> (r: Result<Amount, Erc1155Error>)
        requires
            self.tables_wf(),
        ensures
            match r {
                Ok(b) => self@.balances.contains_key((*owner, type_id)) && b@ == self@.balances[(*owner, type_id)],
                Err(e) => !self@.balances.contains_key((*owner, type_id)) && e == Erc1155Error::BalanceNotFound,
            },
    {
        match self.balances.get(&(*owner, type_id)) {
            Some(b) => Ok(b.dup()),
            None => Err(Erc1155Error::BalanceNotFound),
        }
    }

    fn decrease_balance(&mut self, owner: &Address, type_id: u128, amount: &Amount) -> (r: Result<(), Erc1155Error>)
        requires
            old(self).tables_wf(),
        ensures
            final(self).tables_wf(),
            match decrease_balance_result(old(self)@, *owner, type_id, amount@) {
                Ok(s) => r == Ok::<(), Erc1155Error>(()) && final(self)@ == s,
                Err(e) => r == Err::<(), Erc1155Error>(e) && *final(self) == *old(self),
            },
    {
        let balance = match self.get_balance_for_type_id(owner, type_id) {
            Ok(b) => b,
            Err(e) => {
                return Err(e);
            },
        };
        match balance.checked_sub(amount) {
            Some(rest) => {
                self.set_balance(owner, type_id, rest);
                Ok(())
            },
            None => Err(Erc1155Error::InsufficientBalance),
        }
    }

    fn try_balance_fungible(&self, owner: &Address, type_id: u128, amount: &Amount) -> (r: Result<(), Erc1155Error>)
        requires
            self.tables_wf(),
        ensures
            r == fungible_check_result(self@, *owner, type_id, amount@),
    {
        let balance = self.balance(owner, type_id);
        if amount.is_zero() {
            return Err(Erc1155Error::ZeroAmount);
        }
        if !amount.le(&balance) {
            return Err(Erc1155Error::NotEnoughBalance);
        }
        Ok(())
    }

    fn set_token_owner(&mut self, type_id: u128, nft_id: u128, owner: &Address)
        requires
            old(self).tables_wf(),
        ensures
            final(self).tables_wf(),
            final(self)@ == with_owner(old(self)@, type_id, nft_id, *owner),
    {
        self.token_owner.insert((type_id, nft_id), *owner);
    }

    fn try_balance_nonfungible(&mut self, owner: &Address, type_id: u128, nft_id: u128) -> (r: Result<(), Erc1155Error>)
        requires
            old(self).tables_wf(),
        ensures
            final(self).tables_wf(),
            match take_nft_result(old(self)@, *owner, type_id, nft_id as nat) {
                Ok(s) => r == Ok::<(), Erc1155Error>(()) && final(self)@ == s,
                Err(e) => r == Err::<(), Erc1155Error>(e),
            },
    {
        if !self.is_valid_nft_id(type_id, nft_id) {
            return Err(Erc1155Error::InvalidNftId);
        }
        let current = match self.token_owner.get(&(type_id, nft_id)) {
            Some(o) => *o,
            None => {
                return Err(Erc1155Error::MissingAddress);
            },
        };
        if !current.same(owner) {
            return Err(Erc1155Error::NotNftOwner);
        }
        match self.decrease_balance(owner, type_id, &BigNat::from_u64(1)) {
            Ok(()) => {},
            Err(e) => {
                return Err(e);
            },
        }
        let zero = Address::zero();
        self.set_token_owner(type_id, nft_id, &zero);
        Ok(())
    }

    fn set_owner_for_token_range(&mut self, type_id: u128, start: u128, end: u128, owner: &Address)
        requires
            old(self).tables_wf(),
            forall|n: u128| start <= n <= end ==> !(#[trigger] old(self)@.token_owner.contains_key((type_id, n))),
        ensures
            final(self).tables_wf(),
            final(self)@ == (Erc1155State {
                token_owner: owners_with_range(old(self)@.token_owner, type_id, start as int, end as int, *owner),
                ..old(self)@
            }),
    {
        let ghost s0 = self@;
        if start > end {
            assert(owners_with_range(s0.token_owner, type_id, start as int, end as int, *owner) =~= s0.token_owner);
            return;
        }
        let mut nft_id = start;
        assert(owners_with_range(s0.token_owner, type_id, start as int, start - 1, *owner) =~= s0.token_owner);
        loop
            invariant_except_break
                self.tables_wf(),
                start <= nft_id <= end,
                forall|n: u128| start <= n <= end ==> !(#[trigger] s0.token_owner.contains_key((type_id, n))),
                self@ == (Erc1155State {
                    token_owner: owners_with_range(s0.token_owner, type_id, start as int, nft_id - 1, *owner),
                    ..s0
                }),
            ensures
                self.tables_wf(),
                self@ == (Erc1155State {
                    token_owner: owners_with_range(s0.token_owner, type_id, start as int, end as int, *owner),
                    ..s0
                }),
            decreases end - nft_id,
        {
            assert(!self@.token_owner.contains_key((type_id, nft_id)));
            self.token_owner.push_new((type_id, nft_id), *owner);
            assert(owners_with_range(s0.token_owner, type_id, start as int, nft_id - 1, *owner).insert(
                (type_id, nft_id),
                *owner,
            ) =~= owners_with_range(s0.token_owner, type_id, start as int, nft_id as int, *owner));
            if nft_id == end {
                break;
            }
            nft_id = nft_id + 1;
        }
    }
}

impl Erc1155Contract {

    fn modify_balance_after_transfer(&mut self, from: &Address, to: &Address, type_id: u128, amount: &Amount) -> (r: Result<(), Erc1155Error>)
        requires
            old(self).tables_wf(),
        ensures
            final(self).tables_wf(),
            match decrease_balance_result(increase_balance_result(old(self)@, *to, type_id, amount@), *from, type_id, amount@) {
                Ok(s) => r == Ok::<(), Erc1155Error>(()) && final(self)@ == s,
                Err(e) => r == Err::<(), Erc1155Error>(e),
            },
    {
        self.increase_balance(to, type_id, amount);
        self.decrease_balance(from, type_id, amount)
    }

    fn apply_transfer_fungible(&mut self, from: &Address, to: &Address, type_id: u128, amount: &Amount) -> (r: Result<(), Erc1155Error>)
        requires
            old(self).tables_wf(),
        ensures
            final(self).tables_wf(),
            match transfer_fungible_result(old(self)@, *from, *to, type_id, amount@) {
                Ok(s) => r == Ok::<(), Erc1155Error>(()) && final(self)@ == s,
                Err(e) => r == Err::<(), Erc1155Error>(e),
            },
    {
        match self.try_balance_fungible(from, type_id, amount) {
            Ok(()) => {},
            Err(e) => {
                return Err(e);
            },
        }
        self.modify_balance_after_transfer(from, to, type_id, amount)
    }

    fn apply_transfer_non_fungible(&mut self, from: &Address, to: &Address, type_id: u128, nft_id: u128) -> (r: Result<(), Erc1155Error>)
        requires
            old(self).tables_wf(),
        ensures
            final(self).tables_wf(),
            match transfer_non_fungible_result(old(self)@, *from, *to, type_id, nft_id as nat) {
                Ok(s) => r == Ok::<(), Erc1155Error>(()) && final(self)@ == s,
                Err(e) => r == Err::<(), Erc1155Error>(e),
            },
    {
        match self.try_balance_nonfungible(from, type_id, nft_id) {
            Ok(()) => {},
            Err(e) => {
                return Err(e);
            },
        }
        self.increase_balance(to, type_id, &BigNat::from_u64(1));
        self.set_token_owner(type_id, nft_id, to);
        Ok(())
    }

    fn batch_step(&mut self, from: &Address, to: &Address, type_id: u128, value: &Amount) -> (r: Result<(), Erc1155Error>)
        requires
            old(self).tables_wf(),
        ensures
            final(self).tables_wf(),
            match batch_step_result(old(self)@, *from, *to, type_id, value@) {
                Ok(s) => r == Ok::<(), Erc1155Error>(()) && final(self)@ == s,
                Err(e) => r == Err::<(), Erc1155Error>(e),
            },
    {
        if self.fungible_flag(type_id) {
            match self.try_balance_fungible(from, type_id, value) {
                Ok(()) => {},
                Err(e) => {
                    return Err(e);
                },
            }
            self.increase_balance(to, type_id, value);
            Ok(())
        } else {
            let nft_id = match value.to_u128() {
                Some(n) => n,
                None => {
                    return Err(Erc1155Error::InvalidNftId);
                },
            };
            match self.try_balance_nonfungible(to, type_id, nft_id) {
                Ok(()) => {},
                Err(e) => {
                    return Err(e);
                },
            }
            self.set_token_owner(type_id, nft_id, from);
            Ok(())
        }
    }

    fn apply_batch(&mut self, from: &Address, to: &Address, type_ids: &Vec<u128>, values: &Vec<Amount>) -> (r: Result<(), Erc1155Error>)
        requires
            old(self).tables_wf(),
            type_ids@.len() == values@.len(),
        ensures
            final(self).tables_wf(),
            match batch_fold(old(self)@, *from, *to, type_ids@, amounts_view(values@), type_ids@.len()) {
                Ok(s) => r == Ok::<(), Erc1155Error>(()) && final(self)@ == s,
                Err(e) => r == Err::<(), Erc1155Error>(e),
            },
    {
        let ghost s0 = self@;
        let ghost vs = amounts_view(values@);
        let n = type_ids.len();
        let mut i: usize = 0;
        while i < n
            invariant
                self.tables_wf(),
                s0 == old(self)@,
                vs == amounts_view(values@),
                n == type_ids@.len(),
                n == values@.len(),
                i <= n,
                batch_fold(s0, *from, *to, type_ids@, vs, i as nat) == Ok::<Erc1155State, Erc1155Error>(self@),
            decreases n - i,
        {
            let ghost pre = self@;
            assert(vs[i as int] == values@[i as int]@);
            match self.batch_step(from, to, type_ids[i], &values[i]) {
                Ok(()) => {},
                Err(e) => {
                    proof {
                        assert(batch_fold(s0, *from, *to, type_ids@, vs, (i + 1) as nat)
                            == batch_step_result(pre, *from, *to, type_ids@[i as int], vs[i as int]));
                        lemma_batch_err_persists(s0, *from, *to, type_ids@, vs, (i + 1) as nat, n as nat);
                    }
                    return Err(e);
                },
            }
            i = i + 1;
        }
        Ok(())
    }

    fn apply_callback(&mut self, dest: &Address, type_ids: &Vec<u128>, values: &Vec<Amount>)
        requires
            old(self).tables_wf(),
        ensures
            final(self).tables_wf(),
            final(self)@ == callback_fold(old(self)@, *dest, type_ids@, amounts_view(values@), zip_len(type_ids@.len(), values@.len())),
    {
        let ghost s0 = self@;
        let ghost vs = amounts_view(values@);
        let n = if type_ids.len() <= values.len() {
            type_ids.len()
        } else {
            values.len()
        };
        let mut i: usize = 0;
        while i < n
            invariant
                self.tables_wf(),
                s0 == old(self)@,
                vs == amounts_view(values@),
                n == zip_len(type_ids@.len(), values@.len()),
                i <= n,
                callback_fold(s0, *dest, type_ids@, vs, i as nat) == self@,
            decreases n - i,
        {
            let type_id = type_ids[i];
            assert(vs[i as int] == values@[i as int]@);
            if self.fungible_flag(type_id) {
                self.increase_balance(dest, type_id, &values[i]);
            } else {
                self.increase_balance(dest, type_id, &BigNat::from_u64(1));
            }
            i = i + 1;
        }
    }

}

impl Erc1155Contract {
    fn mint_and_send_esdt_tokens(&mut self, caller: &Address, amount: &Amount) -> (r: Result<(), Erc1155Error>)
        requires
            old(self).wf(),
        ensures
            final(self).wf(),
            match create_token_result(old(self)@, *caller, amount@, false) {
                Err(e) => r == Err::<(), Erc1155Error>(e),
                Ok((s2, _)) => match mint_result(s2, *caller, s2.last_valid_type_id, amount@) {
                    Ok(s) => r == Ok::<(), Erc1155Error>(()) && final(self)@ == s,
                    Err(e) => r == Err::<(), Erc1155Error>(e),
                },
            },
    {
        match self.create_token(caller, amount.dup(), false) {
            Ok(_) => {},
            Err(e) => {
                return Err(e);
            },
        }
        let type_id = self.last_valid_type_id;
        self.mint(caller, type_id, amount.dup())
    }

    fn apply_withdraw(&mut self, caller: &Address, payment_type_id: u128, type_ids: &Vec<u128>, values: &Vec<Amount>) -> (r: Result<Vec<(u128, Amount)>, Erc1155Error>)
        requires
            old(self).tables_wf(),
        ensures
            final(self).tables_wf(),
            match withdraw_fold(old(self)@, *caller, payment_type_id, type_ids@, amounts_view(values@), zip_len(type_ids@.len(), values@.len())) {
                Ok(s) => r matches Ok(v) && sends_view(v@) == withdraw_sends(type_ids@, amounts_view(values@)) && final(self)@ == s,
                Err(e) => r matches Err(x) && x == e,
            },
    {
        let ghost s0 = self@;
        let ghost vs = amounts_view(values@);
        let n = if type_ids.len() <= values.len() {
            type_ids.len()
        } else {
            values.len()
        };
        let mut sends: Vec<(u128, Amount)> = Vec::new();
        let mut i: usize = 0;
        while i < n
            invariant
                self.tables_wf(),
                s0 == old(self)@,
                vs == amounts_view(values@),
                n == zip_len(type_ids@.len(), values@.len()),
                i <= n,
                withdraw_fold(s0, *caller, payment_type_id, type_ids@, vs, i as nat) == Ok::<Erc1155State, Erc1155Error>(self@),
                sends_view(sends@) =~= withdraw_sends(type_ids@, vs).subrange(0, i as int),
            decreases n - i,
        {
            let type_id = type_ids[i];
            let value = &values[i];
            assert(vs[i as int] == value@);
            let ghost pre = self@;
            let step = if type_id != payment_type_id {
                Err(Erc1155Error::TypeMismatch)
            } else {
                self.decrease_balance(caller, type_id, value)
            };
            match step {
                Ok(()) => {},
                Err(e) => {
                    proof {
                        assert(withdraw_fold(s0, *caller, payment_type_id, type_ids@, vs, (i + 1) as nat)
                            == withdraw_step_result(pre, *caller, payment_type_id, type_ids@[i as int], vs[i as int]));
                        lemma_withdraw_err_persists(s0, *caller, payment_type_id, type_ids@, vs, (i + 1) as nat, n as nat);
                    }
                    return Err(e);
                },
            }
            let ghost prev = sends@;
            sends.push((type_id, value.dup()));
            assert(sends_view(sends@) =~= sends_view(prev).push((type_id, value@)));
            i = i + 1;
        }
        assert(withdraw_sends(type_ids@, vs).subrange(0, n as int) =~= withdraw_sends(type_ids@, vs));
        Ok(sends)
    }

}

impl Erc1155 for Erc1155Contract {
    open spec fn wf(&self) -> bool {
        &&& self.tables_wf()
        &&& erc_inv(self@)
    }

    /// Deploys the contract with no token types.
    fn init() -> (c: Erc1155Contract)
        ensures
            c.wf(),
            c@.last_valid_type_id == 0,
            c@.token_type_creator == Map::<u128, Address>::empty(),
            c@.is_fungible == Map::<u128, bool>::empty(),
            c@.last_valid_nft_type_id == Map::<u128, u128>::empty(),
            c@.token_owner == Map::<(u128, u128), Address>::empty(),
            c@.balances == Map::<(Address, u128), nat>::empty(),
            c@.has_permission == Map::<(Address, Address), bool>::empty(),
            c@.esdt_tokens_balance == 0,
    {
        let c = Erc1155Contract {
            last_valid_type_id: 0,
            token_type_creator: Table::new(),
            is_fungible: Table::new(),
            last_valid_nft_type_id: Table::new(),
            token_owner: Table::new(),
            balances: Table::new(),
            has_permission: Table::new(),
            esdt_tokens_balance: BigNat::zero(),
        };
        assert(c@.balances =~= Map::<(Address, u128), nat>::empty());
        c
    }

    /// `caller` creates a new token type holding `initial_supply` units; for a
    /// non-fungible type the NFTs `1..=initial_supply` are owned by `caller`.
    /// Returns the new type id.
    fn create_token(&mut self, caller: &Address, initial_supply: Amount, is_fungible: bool) -> (r: Result<u128, Erc1155Error>)
        ensures
            final(self).wf(),
            match create_token_result(old(self)@, *caller, initial_supply@, is_fungible) {
                Ok((s, t)) => r == Ok::<u128, Erc1155Error>(t) && final(self)@ == s,
                Err(e) => r == Err::<u128, Erc1155Error>(e) && *final(self) == *old(self),
            },
    {
        if self.last_valid_type_id == u128::MAX {
            return Err(Erc1155Error::IdOverflow);
        }
        let supply_id: u128 = match initial_supply.to_u128() {
            Some(n) => n,
            None => {
                if !is_fungible {
                    return Err(Erc1155Error::IdOverflow);
                }
                0
            },
        };
        let type_id = self.last_valid_type_id + 1;
        let ghost s0 = self@;
        let ghost supply = initial_supply@;
        proof {
            lemma_create_inv(s0, *caller, supply, is_fungible);
            assert forall|n: u128| 1 <= n <= supply_id implies !(#[trigger] s0.token_owner.contains_key((type_id, n))) by {
                if s0.token_owner.contains_key((type_id, n)) {
                    assert(valid_nft_id(s0, type_id, n));
                }
            }
        }
        self.set_balance(caller, type_id, initial_supply);
        self.token_type_creator.insert(type_id, *caller);
        self.is_fungible.insert(type_id, is_fungible);
        if !is_fungible {
            self.set_owner_for_token_range(type_id, 1, supply_id, caller);
            self.last_valid_nft_type_id.insert(type_id, supply_id);
        }
        self.last_valid_type_id = type_id;
        Ok(type_id)
    }

    /// `caller` moves `value` units (fungible) or NFT `value` (non-fungible) of type
    /// `type_id` from `from` to `to`.
    fn safe_transfer_from(
        &mut self,
        caller: &Address,
        from: &Address,
        to: &Address,
        type_id: u128,
        value: Amount,
    ) -> (r: Result<(), Erc1155Error>)
        ensures
            final(self).wf(),
            match safe_transfer_result(old(self)@, *caller, *from, *to, type_id, value@) {
                Ok(s) => r == Ok::<(), Erc1155Error>(()) && final(self)@ == s,
                Err(e) => r == Err::<(), Erc1155Error>(e) && *final(self) == *old(self),
            },
    {
        if to.is_zero() {
            return Err(Erc1155Error::ZeroDestination);
        }
        if !self.is_valid_type_id(type_id) {
            return Err(Erc1155Error::InvalidTypeId);
        }
        if !(caller.same(from) || self.has_permission(caller, from)) {
            return Err(Erc1155Error::NoPermission);
        }
        if self.is_fungible(type_id) {
            self.safe_transfer_from_fungible(from, to, type_id, value)
        } else {
            match value.to_u128() {
                Some(nft_id) => self.safe_transfer_from_non_fungible(from, to, type_id, nft_id),
                None => Err(Erc1155Error::InvalidNftId),
            }
        }
    }

    /// Moves `amount` of fungible type `type_id` from `from` to `to`, with no check of
    /// who asks. Whether `to` is a contract does not change the outcome.
    fn safe_transfer_from_fungible(&mut self, from: &Address, to: &Address, type_id: u128, amount: Amount) -> (r: Result<(), Erc1155Error>)
        ensures
            final(self).wf(),
            match transfer_fungible_result(old(self)@, *from, *to, type_id, amount@) {
                Ok(s) => r == Ok::<(), Erc1155Error>(()) && final(self)@ == s,
                Err(e) => r == Err::<(), Erc1155Error>(e) && *final(self) == *old(self),
            },
    {
        let ghost s0 = self@;
        let mut work = self.duplicate();
        match work.apply_transfer_fungible(from, to, type_id, &amount) {
            Ok(()) => {
                proof {
                    lemma_transfer_fungible_inv(s0, *from, *to, type_id, amount@);
                }
                *self = work;
                Ok(())
            },
            Err(e) => Err(e),
        }
    }

    /// Moves NFT `nft_id` of type `type_id` from `from` to `to`, with no check of who asks.
    fn safe_transfer_from_non_fungible(&mut self, from: &Address, to: &Address, type_id: u128, nft_id: u128) -> (r: Result<(), Erc1155Error>)
        ensures
            final(self).wf(),
            match transfer_non_fungible_result(old(self)@, *from, *to, type_id, nft_id as nat) {
                Ok(s) => r == Ok::<(), Erc1155Error>(()) && final(self)@ == s,
                Err(e) => r == Err::<(), Erc1155Error>(e) && *final(self) == *old(self),
            },
    {
        let ghost s0 = self@;
        let mut work = self.duplicate();
        match work.apply_transfer_non_fungible(from, to, type_id, nft_id) {
            Ok(()) => {
                proof {
                    lemma_transfer_nft_inv(s0, *from, *to, type_id, nft_id as nat);
                }
                *self = work;
                Ok(())
            },
            Err(e) => Err(e),
        }
    }

    /// `caller` moves, pair by pair, the `type_ids`/`values` from `from` to `to`.
    fn batch_transfer_from(
        &mut self,
        caller: &Address,
        from: &Address,
        to: &Address,
        type_ids: &Vec<u128>,
        values: &Vec<Amount>,
    ) -> (r: Result<(), Erc1155Error>)
        ensures
            final(self).wf(),
            match batch_transfer_result(old(self)@, *caller, *from, *to, type_ids@, amounts_view(values@)) {
                Ok(s) => r == Ok::<(), Erc1155Error>(()) && final(self)@ == s,
                Err(e) => r == Err::<(), Erc1155Error>(e) && *final(self) == *old(self),
            },
    {
        if !(caller.same(from) || self.has_permission(caller, from)) {
            return Err(Erc1155Error::NotApproved);
        }
        if to.is_zero() {
            return Err(Erc1155Error::ZeroDestinationBatch);
        }
        if !(type_ids.len() != 0 && values.len() != 0) {
            return Err(Erc1155Error::EmptyBatch);
        }
        if type_ids.len() != values.len() {
            return Err(Erc1155Error::LengthMismatch);
        }
        let ghost s0 = self@;
        let mut work = self.duplicate();
        match work.apply_batch(from, to, type_ids, values) {
            Ok(()) => {
                proof {
                    lemma_batch_fold_inv(s0, *from, *to, type_ids@, amounts_view(values@), type_ids@.len());
                }
                *self = work;
                Ok(())
            },
            Err(e) => Err(e),
        }
    }

    /// The creator `caller` mints `amount` more units of type `type_id`; for a
    /// non-fungible type the next `amount` NFT ids are owned by the creator.
    fn mint(&mut self, caller: &Address, type_id: u128, amount: Amount) -> (r: Result<(), Erc1155Error>)
        ensures
            final(self).wf(),
            match mint_result(old(self)@, *caller, type_id, amount@) {
                Ok(s) => r == Ok::<(), Erc1155Error>(()) && final(self)@ == s,
                Err(e) => r == Err::<(), Erc1155Error>(e) && *final(self) == *old(self),
            },
    {
        let creator = match self.token_type_creator.get(&type_id) {
            Some(c) => *c,
            None => {
                return Err(Erc1155Error::MissingAddress);
            },
        };
        if !caller.same(&creator) {
            return Err(Erc1155Error::NotCreator);
        }
        let fungible = self.fungible_flag(type_id);
        let last_valid_id = self.last_valid_nft_type_id(type_id);
        let mut count: u128 = 0;
        if !fungible {
            match amount.to_u128() {
                Some(n) => {
                    if last_valid_id > u128::MAX - n {
                        return Err(Erc1155Error::IdOverflow);
                    }
                    count = n;
                },
                None => {
                    return Err(Erc1155Error::IdOverflow);
                },
            }
        }
        let ghost s0 = self@;
        proof {
            assert forall|n: u128| last_valid_id + 1 <= n <= last_valid_id + count implies !(
            #[trigger] s0.token_owner.contains_key((type_id, n))) by {
                if s0.token_owner.contains_key((type_id, n)) {
                    assert(valid_nft_id(s0, type_id, n));
                }
            }
            if mint_result(s0, *caller, type_id, amount@) is Ok {
                lemma_mint_inv(s0, *caller, type_id, amount@);
            }
        }
        self.increase_balance(&creator, type_id, &amount);
        if !fungible {
            let new_nft_last_id = last_valid_id + count;
            if count > 0 {
                self.set_owner_for_token_range(type_id, last_valid_id + 1, new_nft_last_id, &creator);
            } else {
                assert(owners_with_range(self@.token_owner, type_id, last_valid_id + 1, new_nft_last_id as int, creator)
                    =~= self@.token_owner);
            }
            self.last_valid_nft_type_id.insert(type_id, new_nft_last_id);
        }
        Ok(())
    }

    /// `caller` burns `amount` of fungible type `type_id`.
    fn burn(&mut self, caller: &Address, type_id: u128, amount: Amount) -> (r: Result<(), Erc1155Error>)
        ensures
            final(self).wf(),
            match burn_result(old(self)@, *caller, type_id, amount@) {
                Ok(s) => r == Ok::<(), Erc1155Error>(()) && final(self)@ == s,
                Err(e) => r == Err::<(), Erc1155Error>(e) && *final(self) == *old(self),
            },
    {
        if !self.is_fungible(type_id) {
            return Err(Erc1155Error::NotFungible);
        }
        let balance = self.balance(caller, type_id);
        if !amount.le(&balance) {
            return Err(Erc1155Error::NotEnoughToBurn);
        }
        let ghost s0 = self@;
        let r = self.decrease_balance(caller, type_id, &amount);
        proof {
            if r is Ok {
                lemma_inv_frame(s0, self@);
            }
        }
        r
    }

    /// `caller` deposits `amount` of an ESDT into the contract and receives a new
    /// non-fungible type for it (see `deposit_result`).
    fn deposit(&mut self, caller: &Address, amount: Amount) -> (r: Result<(), Erc1155Error>)
        ensures
            final(self).wf(),
            match deposit_result(old(self)@, *caller, amount@) {
                Ok(s) => r == Ok::<(), Erc1155Error>(()) && final(self)@ == s,
                Err(e) => r == Err::<(), Erc1155Error>(e) && *final(self) == *old(self),
            },
    {
        let ghost s0 = self@;
        let mut work = self.duplicate();
        work.esdt_tokens_balance = work.esdt_tokens_balance.add(&amount);
        proof {
            lemma_inv_frame(s0, work@);
        }
        match work.mint_and_send_esdt_tokens(caller, &amount) {
            Ok(()) => {
                *self = work;
                Ok(())
            },
            Err(e) => Err(e),
        }
    }

    /// `caller`, who paid with the token of type `payment_type_id`, takes back the listed
    /// amounts; every listed type must be that type. Returns what is sent to `caller`.
    fn withdraw(&mut self, caller: &Address, payment_type_id: u128, type_ids: &Vec<u128>, values: &Vec<Amount>) -> (r: Result<Vec<(u128, Amount)>, Erc1155Error>)
        ensures
            final(self).wf(),
            match withdraw_fold(old(self)@, *caller, payment_type_id, type_ids@, amounts_view(values@), zip_len(type_ids@.len(), values@.len())) {
                Ok(s) => r matches Ok(v) && sends_view(v@) == withdraw_sends(type_ids@, amounts_view(values@)) && final(self)@ == s,
                Err(e) => r matches Err(x) && x == e && *final(self) == *old(self),
            },
    {
        let ghost s0 = self@;
        let mut work = self.duplicate();
        match work.apply_withdraw(caller, payment_type_id, type_ids, values) {
            Ok(sends) => {
                proof {
                    lemma_withdraw_fold_inv(s0, *caller, payment_type_id, type_ids@, amounts_view(values@),
                        zip_len(type_ids@.len(), values@.len()));
                }
                *self = work;
                Ok(sends)
            },
            Err(e) => Err(e),
        }
    }

    /// Settles a transfer after the destination contract answered: credits `to` when
    /// the call succeeded, else gives the tokens back to `from`.
    fn transfer_callback(
        &mut self,
        from: &Address,
        to: &Address,
        type_ids: &Vec<u128>,
        values: &Vec<Amount>,
        call_succeeded: bool,
    )
        ensures
            final(self).wf(),
            final(self)@ == transfer_callback_result(old(self)@, *from, *to, type_ids@, amounts_view(values@), call_succeeded),
    {
        let destination_addr = if call_succeeded {
            to
        } else {
            from
        };
        let ghost s0 = self@;
        self.apply_callback(destination_addr, type_ids, values);
        proof {
            lemma_callback_fold_inv(s0, *destination_addr, type_ids@, amounts_view(values@),
                zip_len(type_ids@.len(), values@.len()));
        }
    }

    /// The recorded owner of NFT `nft_id` of type `type_id`, if one was recorded.
    fn token_owner(&self, type_id: u128, nft_id: u128) -> (o: Option<Address>)
        ensures
            o == (if self@.token_owner.contains_key((type_id, nft_id)) {
                Some(self@.token_owner[(type_id, nft_id)])
            } else {
                None::<Address>
            }),
    {
        match self.token_owner.get(&(type_id, nft_id)) {
            Some(o) => Some(*o),
            None => None,
        }
    }

    /// Whether type `type_id` is fungible (false when never set).
    fn is_fungible(&self, type_id: u128) -> (b: bool)
        ensures
            b == fungible_of(self@, type_id),
    {
        match self.is_fungible.get(&type_id) {
            Some(b) => *b,
            None => false,
        }
    }

    /// The creator of type `type_id`, if it was created.
    fn token_type_creator(&self, type_id: u128) -> (c: Option<Address>)
        ensures
            c == (if self@.token_type_creator.contains_key(type_id) {
                Some(self@.token_type_creator[type_id])
            } else {
                None::<Address>
            }),
    {
        match self.token_type_creator.get(&type_id) {
            Some(c) => Some(*c),
            None => None,
        }
    }

    /// Whether `operator` may move `owner`'s tokens.
    fn has_permission(&self, operator: &Address, owner: &Address) -> (b: bool)
        ensures
            b == permission_of(self@, *operator, *owner),
    {
        match self.has_permission.get(&(*operator, *owner)) {
            Some(b) => *b,
            None => false,
        }
    }
}

/// A fungible transfer between two distinct accounts moves exactly `amount`: the
/// sender has `amount` less, the receiver `amount` more, every other balance is kept.
/// Between an account and itself it changes no balance.
pub proof fn law_fungible_transfer_moves_amount(s: Erc1155State, from: Address, to: Address, t: u128, amount: nat)
    requires
        transfer_fungible_result(s, from, to, t, amount) is Ok,
    ensures
        ({
            let s2 = transfer_fungible_result(s, from, to, t, amount)->Ok_0;
            &&& from != to ==> balance_of(s2, from, t) == balance_of(s, from, t) - amount
            &&& from != to ==> balance_of(s2, to, t) == balance_of(s, to, t) + amount
            &&& from == to ==> balance_of(s2, from, t) == balance_of(s, from, t)
            &&& forall|o: Address, u: u128|
                (o, u) != (from, t) && (o, u) != (to, t) ==> #[trigger] balance_of(s2, o, u) == balance_of(s, o, u)
            &&& s2.token_owner == s.token_owner
        }),
{
}

/// A non-fungible transfer hands NFT `n` to `to`: its recorded owner becomes `to`,
/// the sender holds one unit less and the receiver one more (between distinct accounts).
pub proof fn law_nft_transfer_moves_nft(s: Erc1155State, from: Address, to: Address, t: u128, n: u128)
    requires
        transfer_non_fungible_result(s, from, to, t, n as nat) is Ok,
    ensures
        ({
            let s2 = transfer_non_fungible_result(s, from, to, t, n as nat)->Ok_0;
            &&& s.token_owner[(t, n)] == from
            &&& s2.token_owner[(t, n)] == to
            &&& from != to ==> balance_of(s2, from, t) == balance_of(s, from, t) - 1
            &&& from != to ==> balance_of(s2, to, t) == balance_of(s, to, t) + 1
            &&& forall|k: (u128, u128)| k != (t, n) ==> #[trigger] s2.token_owner.contains_key(k) == s.token_owner.contains_key(k)
        }),
{
}

/// A created type gets the next id, which was not valid before and is afterwards; the
/// creator holds the whole initial supply, and for a non-fungible type owns NFTs
/// `1..=initial_supply`, which are then the type's valid NFT ids.
pub proof fn law_create_token(s: Erc1155State, creator: Address, initial_supply: nat, is_fungible: bool)
    requires
        create_token_result(s, creator, initial_supply, is_fungible) is Ok,
    ensures
        ({
            let (s2, t) = create_token_result(s, creator, initial_supply, is_fungible)->Ok_0;
            &&& t == s.last_valid_type_id + 1
            &&& !valid_type_id(s, t)
            &&& valid_type_id(s2, t)
            &&& balance_of(s2, creator, t) == initial_supply
            &&& s2.token_type_creator[t] == creator
            &&& fungible_of(s2, t) == is_fungible
            &&& !is_fungible ==> last_nft_of(s2, t) == initial_supply
            &&& !is_fungible ==> forall|n: u128| 1 <= n <= initial_supply ==> #[trigger] s2.token_owner[(t, n)] == creator
                && valid_nft_id(s2, t, n)
        }),
{
}

/// Minting adds `amount` to the creator's balance; for a non-fungible type the new
/// NFT ids follow the old last id and belong to the creator.
pub proof fn law_mint_adds_to_creator(s: Erc1155State, caller: Address, t: u128, amount: nat)
    requires
        mint_result(s, caller, t, amount) is Ok,
    ensures
        ({
            let s2 = mint_result(s, caller, t, amount)->Ok_0;
            &&& s.token_type_creator[t] == caller
            &&& balance_of(s2, caller, t) == balance_of(s, caller, t) + amount
            &&& !fungible_of(s, t) ==> last_nft_of(s2, t) == last_nft_of(s, t) + amount
            &&& !fungible_of(s, t) ==> forall|n: u128| last_nft_of(s, t) < n <= last_nft_of(s2, t) ==> #[trigger] s2.token_owner[(t, n)] == caller
        }),
{
}

/// Burning takes `amount` off the caller's balance of a fungible type and nothing else.
pub proof fn law_burn_takes_amount(s: Erc1155State, caller: Address, t: u128, amount: nat)
    requires
        burn_result(s, caller, t, amount) is Ok,
    ensures
        fungible_of(s, t),
        balance_of(burn_result(s, caller, t, amount)->Ok_0, caller, t) == balance_of(s, caller, t) - amount,
        forall|o: Address, u: u128| (o, u) != (caller, t) ==> #[trigger] balance_of(burn_result(s, caller, t, amount)->Ok_0, o, u) == balance_of(s, o, u),
{
}

/// Every endpoint that succeeds keeps the storage invariant: NFT owners are recorded
/// only for existing NFT ids and creators only for existing types.
pub proof fn law_calls_keep_invariant(
    s: Erc1155State,
    caller: Address,
    from: Address,
    to: Address,
    t: u128,
    value: nat,
    is_fungible: bool,
    type_ids: Seq<u128>,
    values: Seq<nat>,
    payment_type_id: u128,
    call_succeeded: bool,
)
    requires
        erc_inv(s),
    ensures
        create_token_result(s, caller, value, is_fungible) is Ok ==> erc_inv(
            create_token_result(s, caller, value, is_fungible)->Ok_0.0,
        ),
        safe_transfer_result(s, caller, from, to, t, value) is Ok ==> erc_inv(
            safe_transfer_result(s, caller, from, to, t, value)->Ok_0,
        ),
        batch_transfer_result(s, caller, from, to, type_ids, values) is Ok ==> erc_inv(
            batch_transfer_result(s, caller, from, to, type_ids, values)->Ok_0,
        ),
        mint_result(s, caller, t, value) is Ok ==> erc_inv(mint_result(s, caller, t, value)->Ok_0),
        burn_result(s, caller, t, value) is Ok ==> erc_inv(burn_result(s, caller, t, value)->Ok_0),
        deposit_result(s, caller, value) is Ok ==> erc_inv(deposit_result(s, caller, value)->Ok_0),
        withdraw_fold(s, caller, payment_type_id, type_ids, values, zip_len(type_ids.len(), values.len())) is Ok
            ==> erc_inv(withdraw_fold(s, caller, payment_type_id, type_ids, values, zip_len(type_ids.len(), values.len()))->Ok_0),
        erc_inv(transfer_callback_result(s, from, to, type_ids, values, call_succeeded)),
{
    if create_token_result(s, caller, value, is_fungible) is Ok {
        lemma_create_inv(s, caller, value, is_fungible);
    }
    if safe_transfer_result(s, caller, from, to, t, value) is Ok {
        if fungible_of(s, t) {
            lemma_transfer_fungible_inv(s, from, to, t, value);
        } else {
            lemma_transfer_nft_inv(s, from, to, t, value);
        }
    }
    if batch_transfer_result(s, caller, from, to, type_ids, values) is Ok {
        lemma_batch_fold_inv(s, from, to, type_ids, values, type_ids.len());
    }
    if mint_result(s, caller, t, value) is Ok {
        lemma_mint_inv(s, caller, t, value);
    }
    if burn_result(s, caller, t, value) is Ok {
        lemma_inv_frame(s, burn_result(s, caller, t, value)->Ok_0);
    }
    if deposit_result(s, caller, value) is Ok {
        let s1 = Erc1155State { esdt_tokens_balance: s.esdt_tokens_balance + value, ..s };
        lemma_inv_frame(s, s1);
        lemma_create_inv(s1, caller, value, false);
        let s2 = create_token_result(s1, caller, value, false)->Ok_0.0;
        lemma_mint_inv(s2, caller, s2.last_valid_type_id, value);
    }
    let n = zip_len(type_ids.len(), values.len());
    if withdraw_fold(s, caller, payment_type_id, type_ids, values, n) is Ok {
        lemma_withdraw_fold_inv(s, caller, payment_type_id, type_ids, values, n);
    }
    let dest = if call_succeeded {
        to
    } else {
        from
    };
    lemma_callback_fold_inv(s, dest, type_ids, values, n);
}

/// A single fungible pair of a batch goes through only when its value is positive and
/// at most what the sender holds of that type.
pub proof fn law_batch_fungible_pair_needs_balance(s: Erc1155State, caller: Address, from: Address, to: Address, t: u128, v: nat)
    requires
        batch_transfer_result(s, caller, from, to, seq![t], seq![v]) is Ok,
        fungible_of(s, t),
    ensures
        0 < v <= balance_of(s, from, t),
{
    let ts = seq![t];
    let vs = seq![v];
    assert(batch_fold(s, from, to, ts, vs, 0) == Ok::<Erc1155State, Erc1155Error>(s));
    assert(batch_fold(s, from, to, ts, vs, 1) == batch_step_result(s, from, to, t, v));
}

/// In a batch that goes through, every fungible pair was covered when its turn came:
/// its value is positive and at most what the sender held of that type after the
/// pairs before it.
pub proof fn law_batch_every_fungible_pair_covered(
    s: Erc1155State,
    caller: Address,
    from: Address,
    to: Address,
    type_ids: Seq<u128>,
    values: Seq<nat>,
    j: int,
)
    requires
        batch_transfer_result(s, caller, from, to, type_ids, values) is Ok,
        0 <= j < type_ids.len(),
    ensures
        batch_fold(s, from, to, type_ids, values, j as nat) is Ok,
        fungible_of(batch_fold(s, from, to, type_ids, values, j as nat)->Ok_0, type_ids[j]) ==> 0 < values[j]
            <= balance_of(batch_fold(s, from, to, type_ids, values, j as nat)->Ok_0, from, type_ids[j]),
{
    let n = type_ids.len();
    if batch_fold(s, from, to, type_ids, values, (j + 1) as nat) is Err {
        lemma_batch_err_persists(s, from, to, type_ids, values, (j + 1) as nat, n);
    }
    if batch_fold(s, from, to, type_ids, values, j as nat) is Err {
        lemma_batch_err_persists(s, from, to, type_ids, values, j as nat, n);
    }
}

} // verus!
