//! Verified models of four MultiversX smart contracts: a lottery, a contract that
//! calls the lottery through a proxy, an ERC-1155 style multi-token ledger and a
//! subscription/payments contract.
//!
//! Each contract is a plain state value. Its endpoints are methods that take the
//! blockchain context (caller, payment, randomness, answers of other contracts) as
//! arguments and return what has to be sent out. A refused call returns an error and
//! leaves the state untouched, as a reverted transaction does on chain.
use vstd::prelude::*;

pub mod bignat;
pub mod types;
pub mod table;
pub mod subscription;
pub mod payments;
pub mod service;
pub mod substract_payments;
pub mod unique_payments;
pub mod lottery;
pub mod erc1155;
pub mod deposit_info;
pub mod attacker;
pub mod address_ids;

verus! {

} // verus!
