use sc_contracts::bignat::BigNat;
use sc_contracts::lottery::{Lottery, LotteryContract, LotteryError, ONE_EGLD};
use sc_contracts::types::{Address, Amount};

const EGLD: u128 = ONE_EGLD as u128;

fn n(x: u128) -> Amount {
    BigNat::from_u128(x)
}

fn addr(n: u8) -> Address {
    Address::from_bytes([n; 32])
}

fn with_players(count: u8) -> LotteryContract {
    let mut l = LotteryContract::init();
    for i in 1..=count {
        assert_eq!(l.participate(addr(i), n(EGLD * i as u128)), Ok(true));
    }
    l
}

#[test]
fn participate_records_in_order() {
    let l = with_players(3);
    assert_eq!(
        l.participants(),
        vec![(addr(1), n(EGLD)), (addr(2), n(2 * EGLD)), (addr(3), n(3 * EGLD))]
    );
    assert_eq!(l.calculate_prize(), n(6 * EGLD));
}

#[test]
fn participate_below_one_egld_is_refused() {
    let mut l = LotteryContract::init();
    let err = l.participate(addr(1), n(EGLD - 1)).unwrap_err();
    assert_eq!(err, LotteryError::BelowMinimumPayment);
    assert_eq!(err.message(), "Minimum participation value is one EGLD");
    assert!(l.participants().is_empty());
}

#[test]
fn participate_twice_is_refused() {
    let mut l = with_players(1);
    let err = l.participate(addr(1), n(5 * EGLD)).unwrap_err();
    assert_eq!(err, LotteryError::AlreadyParticipating);
    assert_eq!(err.message(), "You are allowed to participate only once");
    assert_eq!(l.participants(), vec![(addr(1), n(EGLD))]);
}

#[test]
fn large_payments_add_up_past_u128() {
    let mut l = LotteryContract::init();
    l.participate(addr(1), n(u128::MAX - EGLD)).unwrap();
    assert_eq!(l.participate(addr(2), n(2 * EGLD)), Ok(true));
    assert_eq!(l.participants().len(), 2);
    l.draw_winner(1).unwrap();
    // (2^128 - 1 - EGLD) + 2 EGLD = 2^128 + (EGLD - 1): limbs [EGLD - 1, 0, 1].
    let prize = l.redeem_prize(&addr(2)).unwrap();
    assert_eq!(prize, BigNat::from_limbs(vec![(EGLD - 1) as u64, 0, 1]));
    assert_eq!(prize.to_u128(), None);
}

#[test]
fn draw_with_no_participant_is_refused() {
    let mut l = LotteryContract::init();
    let err = l.draw_winner(5).unwrap_err();
    assert_eq!(err, LotteryError::EmptyDrawRange);
    assert_eq!(err.message(), "attempt to calculate the remainder with a divisor of zero");
}

#[test]
fn draw_picks_rand_modulo_count() {
    let mut l = with_players(3);
    assert_eq!(l.draw_winner(7), Ok(()));
    // 7 % 3 == 1: the second participant
    assert_eq!(l.get_winner(), Some(addr(2)));
    assert!(l.is_winner(&addr(2)));
    assert!(!l.is_winner(&addr(1)));
    assert!(!l.is_executing());
}

#[test]
fn redeem_without_winner_is_refused() {
    let mut l = with_players(2);
    let err = l.redeem_prize(&addr(1)).unwrap_err();
    assert_eq!(err, LotteryError::NoWinner);
    assert_eq!(err.message(), "There was no winner nomitated");
}

#[test]
fn redeem_by_non_winner_is_refused() {
    let mut l = with_players(2);
    l.draw_winner(0).unwrap();
    let err = l.redeem_prize(&addr(2)).unwrap_err();
    assert_eq!(err, LotteryError::NotWinner);
    assert_eq!(err.message(), "You are not the winner of the lottery");
    assert_eq!(l.participants().len(), 2);
}

#[test]
fn winner_redeems_all_payments() {
    let mut l = with_players(3);
    l.draw_winner(2).unwrap();
    assert_eq!(l.get_winner(), Some(addr(3)));
    assert_eq!(l.redeem_prize(&addr(3)), Ok(n(6 * EGLD)));
    assert!(l.participants().is_empty());
    assert!(!l.is_executing());
    // the winner stays recorded, but with one participant or none there is no prize
    let err = l.redeem_prize(&addr(3)).unwrap_err();
    assert_eq!(err, LotteryError::OnlyOneParticipant);
    assert_eq!(err.message(), "There is only one participant!");
}

#[test]
fn a_new_round_opens_after_redeem() {
    let mut l = with_players(2);
    l.draw_winner(1).unwrap();
    l.redeem_prize(&addr(2)).unwrap();
    assert_eq!(l.participate(addr(1), n(EGLD)), Ok(true));
    assert_eq!(l.participate(addr(2), n(EGLD)), Ok(true));
}

#[test]
fn error_messages_of_draws_in_progress() {
    assert_eq!(LotteryError::InExecution.message(), "Contract is in execution!");
    assert_eq!(
        LotteryError::ParticipationClosed.message(),
        "The lottery is in progress, you can't participate now"
    );
    assert_eq!(LotteryError::StillInProgress.message(), "The lottery is still in progress");
}
