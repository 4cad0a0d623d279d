use sc_contracts::attacker::{AsyncCallResult, Attacker, AttackerContract, AttackerError, LotteryCall, LotteryProxy};
use sc_contracts::lottery::{Lottery, LotteryContract, LotteryError, ONE_EGLD};
use sc_contracts::bignat::BigNat;
use sc_contracts::types::Address;

type Balance = u128;

const TEN_EGLD: Balance = 10 * ONE_EGLD as Balance;

fn n(x: u128) -> BigNat {
    BigNat::from_u128(x)
}

fn addr(n: u8) -> Address {
    Address::from_bytes([n; 32])
}

/// Balances of the accounts of a test, kept by the test itself.
struct World {
    lottery: LotteryContract,
    lottery_address: Address,
    lottery_balance: Balance,
    attacker: AttackerContract,
    attacker_balance: Balance,
}

fn init_all() -> World {
    let lottery_address = addr(200);
    let attacker = AttackerContract::init(&lottery_address, true).unwrap();
    World {
        lottery: LotteryContract::init(),
        lottery_address,
        lottery_balance: 100 * ONE_EGLD as Balance,
        attacker,
        attacker_balance: 100 * ONE_EGLD as Balance,
    }
}

/// Runs a call that the attacker contract makes on the lottery contract.
fn run_call(w: &mut World, call: LotteryCall, rand: u64) -> Result<Option<Balance>, LotteryError> {
    match call {
        LotteryCall::Participate { participant, payment, .. } => {
            let paid = payment.to_u128().unwrap();
            w.lottery.participate(participant, payment)?;
            w.attacker_balance -= paid;
            w.lottery_balance += paid;
            Ok(None)
        }
        LotteryCall::DrawWinner { .. } | LotteryCall::DrawWinnerAsync { .. } => {
            w.lottery.draw_winner(rand)?;
            Ok(None)
        }
        LotteryCall::RedeemPrize { participant, .. } => {
            let prize = w.lottery.redeem_prize(&participant)?.to_u128().unwrap();
            w.lottery_balance -= prize;
            Ok(Some(prize))
        }
    }
}

/// A user calls the attacker's `participate`, paying one EGLD to it.
fn call_participate(w: &mut World, user: Address, user_balance: &mut Balance) -> Result<(), LotteryError> {
    *user_balance -= ONE_EGLD as Balance;
    w.attacker_balance += ONE_EGLD as Balance;
    let lottery = w.lottery_address;
    let call = w.attacker.participate(user, lottery, n(ONE_EGLD as Balance));
    run_call(w, call, 0).map(|_| ())
}

#[test]
fn attacker_rust_tests_init_test() {
    let w = init_all();
    assert_eq!(w.attacker.lottery_sc_address(), Some(addr(200)));
    assert!(w.lottery.participants().is_empty());
}

#[test]
fn participating_tests_setup() {
    let mut w = init_all();
    let caller = addr(1);
    let mut caller_balance: Balance = TEN_EGLD;
    let sc_balance_before_participating = w.lottery_balance;
    call_participate(&mut w, caller, &mut caller_balance).unwrap();
    let sc_balance_after_participating = w.lottery_balance;
    assert_eq!(caller_balance, TEN_EGLD - ONE_EGLD as Balance);
    assert!(sc_balance_before_participating < sc_balance_after_participating);
}

#[test]
fn redeem_prize_one_participant() {
    let mut w = init_all();
    let caller = addr(1);
    let mut caller_balance: Balance = TEN_EGLD;
    call_participate(&mut w, caller, &mut caller_balance).unwrap();
    let lottery = w.lottery_address;
    let call = w.attacker.draw_winner(lottery);
    let err = run_call(&mut w, call, 7).unwrap_err();
    assert_eq!(err, LotteryError::TooFewParticipants);
    assert_eq!(err.message(), "There should be more than 1 participants");
}

#[test]
fn redeem_prize_two_participants() {
    let mut w = init_all();
    let first_caller = addr(1);
    let second_caller = addr(2);
    let mut first_balance: Balance = TEN_EGLD;
    let mut second_balance: Balance = TEN_EGLD;
    call_participate(&mut w, first_caller, &mut first_balance).unwrap();
    call_participate(&mut w, second_caller, &mut second_balance).unwrap();
    let lottery = w.lottery_address;
    // The random number 0 picks the first participant.
    let call = w.attacker.draw_winner(lottery);
    let _ = run_call(&mut w, call, 0);
    let call = w.attacker.redeem_prize(first_caller, lottery);
    if let Ok(Some(prize)) = run_call(&mut w, call, 0) {
        first_balance += prize;
    }
    assert_ne!(first_balance, second_balance);
    assert_eq!(first_balance, TEN_EGLD + ONE_EGLD as Balance);
}

#[test]
fn attacker_callback_draws_again_on_success() {
    let w = init_all();
    let lottery = w.lottery_address;
    assert_eq!(w.attacker.attack_async(lottery), LotteryCall::DrawWinnerAsync { lottery });
    assert_eq!(
        w.attacker.attacker_callback(&lottery, AsyncCallResult::Success),
        Ok(LotteryCall::DrawWinner { lottery })
    );
}

#[test]
fn attacker_callback_fails_with_the_call_message() {
    let w = init_all();
    let msg = b"Contract is in execution!".to_vec();
    let err = w
        .attacker
        .attacker_callback(&addr(200), AsyncCallResult::Failure(msg.clone()))
        .unwrap_err();
    assert_eq!(err.message(), msg);
}

#[test]
fn attacker_init_rejects_non_contract() {
    let err = AttackerContract::init(&addr(3), false).err().unwrap();
    assert_eq!(err, AttackerError::InvalidLotteryAddress);
    assert_eq!(err.message(), b"Invalid Lottery SC address".to_vec());
}

#[test]
fn async_draw_then_callback_draw_keeps_a_participant_as_winner() {
    let mut w = init_all();
    let mut b1: Balance = TEN_EGLD;
    let mut b2: Balance = TEN_EGLD;
    call_participate(&mut w, addr(1), &mut b1).unwrap();
    call_participate(&mut w, addr(2), &mut b2).unwrap();
    let lottery = w.lottery_address;
    let call = w.attacker.attack_async(lottery);
    run_call(&mut w, call, 0).unwrap();
    assert_eq!(w.lottery.get_winner(), Some(addr(1)));
    let next = w.attacker.attacker_callback(&lottery, AsyncCallResult::Success).unwrap();
    run_call(&mut w, next, 1).unwrap();
    assert_eq!(w.lottery.get_winner(), Some(addr(2)));
    assert_eq!(w.lottery.participants().len(), 2);
}
