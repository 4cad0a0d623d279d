//! A record of one depositor's ESDT funds.
use vstd::prelude::*;
use crate::types::{Address, EsdtTokenPayment};

verus! {

/// Who deposited, and which ESDT payments.
pub struct DepositInfo {
    pub depositor_address: Address,
    pub esdt_funds: Vec<EsdtTokenPayment>,
}

} // verus!
