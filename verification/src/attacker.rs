//! A contract that drives the lottery contract through calls: it enters players,
//! asks for draws and redeems prizes, and can ask for a draw asynchronously and then,
//! from the callback, ask for another one.
use vstd::prelude::*;
use crate::types::{Address, Amount};

verus! {

/// A call this contract makes to the lottery contract at `lottery`.
#[derive(Clone, Debug, PartialEq, Eq)]
pub enum LotteryCall {
    /// `participate(participant)` with `payment` EGLD attached, run in place.
    Participate { lottery: Address, participant: Address, payment: Amount },
    /// `drawWinner()`, run in place.
    DrawWinner { lottery: Address },
    /// `redeem_prize(participant)`, run in place.
    RedeemPrize { lottery: Address, participant: Address },
    /// `drawWinner()` as an asynchronous call whose answer comes back to
    /// `LotteryProxy::attacker_callback` with `lottery` as its argument.
    DrawWinnerAsync { lottery: Address },
}

/// Why a call of this contract is refused.
#[derive(Clone, Debug, PartialEq, Eq)]
pub enum AttackerError {
    /// The lottery address given at deployment is not a contract.
    InvalidLotteryAddress,
    /// The asynchronous call failed with this message.
    AsyncCallFailed(Vec<u8>),
}

impl AttackerError {
    /// The message the refused call fails with (for a failed asynchronous call, the
    /// lottery's own message).
    pub fn message(&self) -> (m: Vec<u8>)
        ensures
            match self {
                AttackerError::InvalidLotteryAddress => m@ == "Invalid Lottery SC address"@.map_values(|c: char| c as u8),
                AttackerError::AsyncCallFailed(msg) => m@ == msg@,
            },
    {
        match self {
            AttackerError::InvalidLotteryAddress => {
                let text = "Invalid Lottery SC address";
                proof {
                    reveal_strlit("Invalid Lottery SC address");
                }
                let mut m: Vec<u8> = Vec::new();
                let n = text.unicode_len();
                let mut i: usize = 0;
                while i < n
                    invariant
                        n == text@.len(),
                        text@ == "Invalid Lottery SC address"@,
                        i <= n,
                        m@ =~= text@.subrange(0, i as int).map_values(|c: char| c as u8),
                    decreases n - i,
                {
                    let c = text.get_char(i);
                    m.push(c as u8);
                    proof {
                        assert(text@.subrange(0, i + 1) =~= text@.subrange(0, i as int).push(c));
                    }
                    i = i + 1;
                }
                assert(text@.subrange(0, n as int) =~= text@);
                m
            },
            AttackerError::AsyncCallFailed(msg) => crate::types::copy_bytes(msg),
        }
    }
}

/// The outcome of an asynchronous call, as the callback receives it.
#[derive(Clone, Debug, PartialEq, Eq)]
pub enum AsyncCallResult {
    /// The call succeeded.
    Success,
    /// The call failed; the bytes are the text the callback fails with (on chain, the
    /// debug form of the error message).
    Failure(Vec<u8>),
}

/// The proxy module: calls into the lottery contract and the stored lottery address.
pub trait LotteryProxy: Sized {
    /// The lottery address stored at deployment, if any.
    fn lottery_sc_address(&self) -> (a: Option<Address>);

    /// Enters `participant` in the lottery at `lottery_sc_address`, paying `amount`.
    fn participate(&self, participant: Address, lottery_sc_address: Address, amount: Amount) -> (c: LotteryCall);

    /// Asks the lottery at `lottery_sc_address` for a draw, asynchronously.
    fn attack_async(&self, lottery_sc_address: Address) -> (c: LotteryCall);

    /// Redeems the prize of `participant` at the lottery `lottery_sc_address`.
    fn redeem_prize(&self, participant: Address, lottery_sc_address: Address) -> (c: LotteryCall);

    /// Asks the lottery at `lottery_sc_address` for a draw.
    fn draw_winner(&self, lottery_sc_address: Address) -> (c: LotteryCall);

    /// Runs on the answer of the asynchronous draw at `address`.
    fn attacker_callback(&self, address: &Address, result: AsyncCallResult) -> (r: Result<LotteryCall, AttackerError>);
}

/// The attacker contract: the proxy module, deployed for one lottery.
pub trait Attacker: LotteryProxy {
    /// Deploys the contract for the lottery at `sc_address`.
    fn init(sc_address: &Address, sc_address_is_contract: bool) -> (r: Result<Self, AttackerError>);
}

/// The attacker contract's storage: the lottery contract it was set up for.
pub struct AttackerContract {
    lottery_sc_address: Option<Address>,
}

impl AttackerContract {
    pub closed spec fn view(&self) -> Option<Address> {
        self.lottery_sc_address
    }
}

impl LotteryProxy for AttackerContract {
    /// The lottery address stored at deployment, if any.
    fn lottery_sc_address(&self) -> (a: Option<Address>)
        ensures
            a == self@,
    {
        self.lottery_sc_address
    }

    /// Enters `participant` in the lottery at `lottery_sc_address`, paying `amount`.
    fn participate(&self, participant: Address, lottery_sc_address: Address, amount: Amount) -> (c: LotteryCall)
        ensures
            c == (LotteryCall::Participate { lottery: lottery_sc_address, participant, payment: amount }),
    {
        LotteryCall::Participate { lottery: lottery_sc_address, participant, payment: amount }
    }

    /// Asks the lottery at `lottery_sc_address` for a draw, asynchronously, with
    /// `attacker_callback` to run on its answer.
    fn attack_async(&self, lottery_sc_address: Address) -> (c: LotteryCall)
        ensures
            c == (LotteryCall::DrawWinnerAsync { lottery: lottery_sc_address }),
    {
        LotteryCall::DrawWinnerAsync { lottery: lottery_sc_address }
    }

    /// Redeems the prize of `participant` at the lottery `lottery_sc_address`.
    fn redeem_prize(&self, participant: Address, lottery_sc_address: Address) -> (c: LotteryCall)
        ensures
            c == (LotteryCall::RedeemPrize { lottery: lottery_sc_address, participant }),
    {
        LotteryCall::RedeemPrize { lottery: lottery_sc_address, participant }
    }

    /// Asks the lottery at `lottery_sc_address` for a draw.
    fn draw_winner(&self, lottery_sc_address: Address) -> (c: LotteryCall)
        ensures
            c == (LotteryCall::DrawWinner { lottery: lottery_sc_address }),
    {
        LotteryCall::DrawWinner { lottery: lottery_sc_address }
    }

    /// On the answer of the asynchronous draw at `address`: when it succeeded, asks
    /// the same lottery for another draw; when it failed, fails with its message.
    fn attacker_callback(&self, address: &Address, result: AsyncCallResult) -> (r: Result<LotteryCall, AttackerError>)
        ensures
            match result {
                AsyncCallResult::Success => r == Ok::<LotteryCall, AttackerError>(LotteryCall::DrawWinner { lottery: *address }),
                AsyncCallResult::Failure(msg) => r matches Err(AttackerError::AsyncCallFailed(m)) && m@ == msg@,
            },
    {
        match result {
            AsyncCallResult::Success => Ok(LotteryCall::DrawWinner { lottery: *address }),
            AsyncCallResult::Failure(msg) => Err(AttackerError::AsyncCallFailed(msg)),
        }
    }
}

impl Attacker for AttackerContract {
    /// Deploys the contract for the lottery at `sc_address`; `sc_address_is_contract`
    /// is the chain's answer to whether that address holds a contract.
    fn init(sc_address: &Address, sc_address_is_contract: bool) -> (r: Result<AttackerContract, AttackerError>)
        ensures
            sc_address_is_contract ==> (r matches Ok(a) && a@ == Some(*sc_address)),
            !sc_address_is_contract ==> r == Err::<AttackerContract, AttackerError>(AttackerError::InvalidLotteryAddress),
    {
        if !sc_address_is_contract {
            return Err(AttackerError::InvalidLotteryAddress);
        }
        Ok(AttackerContract { lottery_sc_address: Some(*sc_address) })
    }
}

} // verus!
