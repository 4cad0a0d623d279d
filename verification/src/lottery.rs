//! The lottery contract: participants pay at least one EGLD to enter, a random draw
//! names a winner, and the winner redeems the sum of all entry payments.
use vstd::prelude::*;
use crate::table::{keys_distinct, seq_has_key, Table};
use crate::bignat::BigNat;
use crate::types::{Address, Amount};

verus! {

/// Smallest accepted participation payment: one EGLD.
pub const ONE_EGLD: u64 = 1000000000000000000;

/// Why a lottery call is refused.
#[derive(Clone, Copy, Debug, PartialEq, Eq)]
pub enum LotteryError {
    /// A draw is already under way.
    InExecution,
    /// A draw needs more than one participant.
    TooFewParticipants,
    /// A draw over no participants has an empty range to pick from.
    EmptyDrawRange,
    /// Participation is closed while a draw is under way.
    ParticipationClosed,
    /// The payment is below one EGLD.
    BelowMinimumPayment,
    /// The address already participates.
    AlreadyParticipating,
    /// The prize cannot be redeemed while a draw is under way.
    StillInProgress,
    /// No winner has been drawn.
    NoWinner,
    /// The address is not the winner.
    NotWinner,
    /// The prize needs more than one participant.
    OnlyOneParticipant,
}

/// The message a refused call fails with.
pub open spec fn lottery_error_message(e: LotteryError) -> Seq<char> {
    match e {
        LotteryError::InExecution => "Contract is in execution!"@,
        LotteryError::TooFewParticipants => "There should be more than 1 participants"@,
        LotteryError::EmptyDrawRange => "attempt to calculate the remainder with a divisor of zero"@,
        LotteryError::ParticipationClosed => "The lottery is in progress, you can't participate now"@,
        LotteryError::BelowMinimumPayment => "Minimum participation value is one EGLD"@,
        LotteryError::AlreadyParticipating => "You are allowed to participate only once"@,
        LotteryError::StillInProgress => "The lottery is still in progress"@,
        LotteryError::NoWinner => "There was no winner nomitated"@,
        LotteryError::NotWinner => "You are not the winner of the lottery"@,
        LotteryError::OnlyOneParticipant => "There is only one participant!"@,
    }
}

impl LotteryError {
    pub fn message(&self) -> (m: &'static str)
        ensures
            m@ == lottery_error_message(*self),
    {
        match self {
            LotteryError::InExecution => "Contract is in execution!",
            LotteryError::TooFewParticipants => "There should be more than 1 participants",
            LotteryError::EmptyDrawRange => "attempt to calculate the remainder with a divisor of zero",
            LotteryError::ParticipationClosed => "The lottery is in progress, you can't participate now",
            LotteryError::BelowMinimumPayment => "Minimum participation value is one EGLD",
            LotteryError::AlreadyParticipating => "You are allowed to participate only once",
            LotteryError::StillInProgress => "The lottery is still in progress",
            LotteryError::NoWinner => "There was no winner nomitated",
            LotteryError::NotWinner => "You are not the winner of the lottery",
            LotteryError::OnlyOneParticipant => "There is only one participant!",
        }
    }
}

/// The lottery's storage as mathematical values.
pub struct LotteryState {
    /// The drawn winner, if one was drawn.
    pub winner: Option<Address>,
    /// Participants and their payments, in order of entry.
    pub participants: Seq<(Address, nat)>,
    /// A draw is under way.
    pub is_executing: bool,
}

/// Sum of the payments in `s`.
pub open spec fn total_paid(s: Seq<(Address, nat)>) -> nat
    decreases s.len(),
{
    if s.len() == 0 {
        0
    } else {
        total_paid(s.drop_last()) + s.last().1
    }
}

/// What every reachable lottery state satisfies: each address participates once,
/// with at least one EGLD.
pub open spec fn lottery_inv(s: LotteryState) -> bool {
    &&& keys_distinct(s.participants)
    &&& forall|i: int| 0 <= i < s.participants.len() ==> #[trigger] s.participants[i].1 >= ONE_EGLD
}

/// The entries of a participant table as values.
pub open spec fn entries_view(s: Seq<(Address, BigNat)>) -> Seq<(Address, nat)> {
    s.map_values(|e: (Address, BigNat)| (e.0, e.1@))
}

/// The state after a participation request, or the reason it is refused.
pub open spec fn participate_result(s: LotteryState, participant: Address, payment: nat) -> Result<LotteryState, LotteryError> {
    if s.is_executing {
        Err(LotteryError::ParticipationClosed)
    } else if payment < ONE_EGLD {
        Err(LotteryError::BelowMinimumPayment)
    } else if seq_has_key(s.participants, participant) {
        Err(LotteryError::AlreadyParticipating)
    } else {
        Ok(LotteryState { participants: s.participants.push((participant, payment)), ..s })
    }
}

/// The state after a draw with the random number `rand`, or the reason it is refused.
/// The winner is the participant at position `rand % count`, in order of entry.
pub open spec fn draw_result(s: LotteryState, rand: u64) -> Result<LotteryState, LotteryError> {
    let count = s.participants.len();
    if s.is_executing {
        Err(LotteryError::InExecution)
    } else if count == 1 {
        Err(LotteryError::TooFewParticipants)
    } else if count == 0 {
        Err(LotteryError::EmptyDrawRange)
    } else {
        Ok(
            LotteryState {
                winner: Some(s.participants[(rand as int) % (count as int)].0),
                is_executing: false,
                ..s
            },
        )
    }
}

/// The state and prize after a redeem request by `participant`, or the reason it is refused.
pub open spec fn redeem_result(s: LotteryState, participant: Address) -> Result<(LotteryState, nat), LotteryError> {
    if !(s.participants.len() == 0 || !s.is_executing) {
        Err(LotteryError::StillInProgress)
    } else if s.winner is None {
        Err(LotteryError::NoWinner)
    } else if s.winner != Some(participant) {
        Err(LotteryError::NotWinner)
    } else if s.participants.len() <= 1 {
        Err(LotteryError::OnlyOneParticipant)
    } else {
        Ok(
            (
                LotteryState { participants: Seq::empty(), is_executing: false, ..s },
                total_paid(s.participants),
            ),
        )
    }
}

/// The lottery contract's endpoints.
pub trait Lottery: Sized {
    /// The storage is well formed.
    spec fn wf(&self) -> bool;

    /// Deploys the lottery.
    fn init() -> (l: Self)
        ensures
            l.wf(),
    ;

    /// Draws the winner from the random number `rand`.
    fn draw_winner(&mut self, rand: u64) -> (r: Result<(), LotteryError>)
        requires
            old(self).wf(),
        ensures
            final(self).wf(),
    ;

    /// Enters `participant` with the EGLD payment `payment`.
    fn participate(&mut self, participant: Address, payment: Amount) -> (r: Result<bool, LotteryError>)
        requires
            old(self).wf(),
        ensures
            final(self).wf(),
    ;

    /// Pays the prize to the winner `participant` and closes the round.
    fn redeem_prize(&mut self, participant: &Address) -> (r: Result<Amount, LotteryError>)
        requires
            old(self).wf(),
        ensures
            final(self).wf(),
    ;

    /// Sum of all participation payments.
    fn calculate_prize(&self) -> (prize: Amount)
        requires
            self.wf(),
    ;

    /// `caller` is the drawn winner.
    fn is_winner(&self, caller: &Address) -> (b: bool);

    /// The drawn winner, if any.
    fn get_winner(&self) -> (w: Option<Address>);
}

/// The lottery contract's storage.
pub struct LotteryContract {
    winner: Option<Address>,
    participants: Table<Address, Amount>,
    is_executing: bool,
}

proof fn lemma_total_push(s: Seq<(Address, nat)>, e: (Address, nat))
    ensures
        total_paid(s.push(e)) == total_paid(s) + e.1,
{
    assert(s.push(e).drop_last() =~= s);
}

/// The view of the entries keeps their keys, so a key is present in one exactly when
/// it is present in the other.
proof fn lemma_entries_view_keys(s: Seq<(Address, BigNat)>, k: Address)
    ensures
        seq_has_key(entries_view(s), k) == seq_has_key(s, k),
        keys_distinct(s) == keys_distinct(entries_view(s)),
{
    let v = entries_view(s);
    if seq_has_key(s, k) {
        let i = choose|i: int| #![trigger s[i]] 0 <= i < s.len() && s[i].0 == k;
        assert(v[i].0 == k);
    }
    if seq_has_key(v, k) {
        let i = choose|i: int| #![trigger v[i]] 0 <= i < v.len() && v[i].0 == k;
        assert(s[i].0 == k);
    }
    if keys_distinct(s) {
        assert forall|i: int, j: int| #![trigger v[i], v[j]] 0 <= i < v.len() && 0 <= j < v.len() && i != j implies v[i].0
            != v[j].0 by {
            assert(s[i].0 != s[j].0);
        }
    }
    if keys_distinct(v) {
        assert forall|i: int, j: int| #![trigger s[i], s[j]] 0 <= i < s.len() && 0 <= j < s.len() && i != j implies s[i].0
            != s[j].0 by {
            assert(v[i].0 != v[j].0);
        }
    }
}

impl LotteryContract {
    pub closed spec fn view(&self) -> LotteryState {
        LotteryState {
            winner: self.winner,
            participants: entries_view(self.participants.entries()),
            is_executing: self.is_executing,
        }
    }

    /// Participants and payments, in order of entry.
    pub fn participants(&self) -> (v: Vec<(Address, Amount)>)
        ensures
            entries_view(v@) == self@.participants,
    {
        let mut v: Vec<(Address, Amount)> = Vec::new();
        let mut i: usize = 0;
        let n = self.participants.len();
        while i < n
            invariant
                n == self.participants.entries().len(),
                i <= n,
                entries_view(v@) =~= entries_view(self.participants.entries()).subrange(0, i as int),
            decreases n - i,
        {
            let e = self.participants.entry_at(i);
            let ghost before = v@;
            v.push((e.0, e.1.dup()));
            assert(entries_view(v@) =~= entries_view(before).push((e.0, e.1@)));
            i = i + 1;
        }
        assert(entries_view(self.participants.entries()).subrange(0, n as int) =~= entries_view(self.participants.entries()));
        v
    }

    /// The participant table is well formed.
    pub closed spec fn table_wf(&self) -> bool {
        self.participants.wf()
    }

    /// A draw is under way.
    pub fn is_executing(&self) -> (b: bool)
        ensures
            b == self@.is_executing,
    {
        self.is_executing
    }
}

impl Lottery for LotteryContract {
    open spec fn wf(&self) -> bool {
        &&& self.table_wf()
        &&& lottery_inv(self@)
    }

    /// Deploys the lottery: no participants, no winner, no draw under way.
    fn init() -> (l: LotteryContract)
        ensures
            l.wf(),
            l@.participants == Seq::<(Address, nat)>::empty(),
            l@.winner is None,
            !l@.is_executing,
    {
        let l = LotteryContract { winner: None, participants: Table::new(), is_executing: false };
        assert(l@.participants =~= Seq::<(Address, nat)>::empty());
        l
    }

    /// Enters `participant` with the EGLD payment `payment`.
    fn participate(&mut self, participant: Address, payment: Amount) -> (r: Result<bool, LotteryError>)
        ensures
            final(self).wf(),
            match participate_result(old(self)@, participant, payment@) {
                Ok(s) => r == Ok::<bool, LotteryError>(true) && final(self)@ == s,
                Err(e) => r == Err::<bool, LotteryError>(e) && *final(self) == *old(self),
            },
    {
        if self.is_executing {
            return Err(LotteryError::ParticipationClosed);
        }
        if payment.lt(&BigNat::from_u64(ONE_EGLD)) {
            return Err(LotteryError::BelowMinimumPayment);
        }
        proof {
            lemma_entries_view_keys(self.participants.entries(), participant);
        }
        if self.participants.contains_key(&participant) {
            return Err(LotteryError::AlreadyParticipating);
        }
        let ghost old_entries = self.participants.entries();
        let ghost p = payment@;
        self.participants.insert(participant, payment);
        proof {
            assert(self.participants.entries() == old_entries.push((participant, payment)));
            assert(entries_view(self.participants.entries()) =~= entries_view(old_entries).push((participant, p)));
            lemma_entries_view_keys(self.participants.entries(), participant);
        }
        Ok(true)
    }

    /// Draws the winner from the random number `rand`.
    fn draw_winner(&mut self, rand: u64) -> (r: Result<(), LotteryError>)
        ensures
            final(self).wf(),
            match draw_result(old(self)@, rand) {
                Ok(s) => r == Ok::<(), LotteryError>(()) && final(self)@ == s,
                Err(e) => r == Err::<(), LotteryError>(e) && *final(self) == *old(self),
            },
    {
        if self.is_executing {
            return Err(LotteryError::InExecution);
        }
        let participants_count = self.participants.len() as u64;
        if participants_count == 1 {
            return Err(LotteryError::TooFewParticipants);
        }
        if participants_count == 0 {
            return Err(LotteryError::EmptyDrawRange);
        }
        let rand_index = rand % participants_count;
        let entry = self.participants.entry_at(rand_index as usize);
        self.winner = Some(entry.0);
        self.is_executing = false;
        Ok(())
    }

    /// Pays the prize to the winner `participant` and closes the round.
    /// The returned amount is what is sent to `participant`.
    fn redeem_prize(&mut self, participant: &Address) -> (r: Result<Amount, LotteryError>)
        ensures
            final(self).wf(),
            match redeem_result(old(self)@, *participant) {
                Ok((s, prize)) => r matches Ok(p) && p@ == prize && final(self)@ == s,
                Err(e) => r matches Err(x) && x == e && *final(self) == *old(self),
            },
    {
        if !(self.participants.is_empty() || !self.is_executing) {
            return Err(LotteryError::StillInProgress);
        }
        if self.get_winner().is_none() {
            return Err(LotteryError::NoWinner);
        }
        if !self.is_winner(participant) {
            return Err(LotteryError::NotWinner);
        }
        if !(self.participants.len() > 1) {
            return Err(LotteryError::OnlyOneParticipant);
        }
        let prize = self.calculate_prize();
        self.participants.clear();
        self.is_executing = false;
        assert(self@.participants =~= Seq::<(Address, nat)>::empty());
        Ok(prize)
    }

    /// Sum of all participation payments.
    fn calculate_prize(&self) -> (prize: Amount)
        ensures
            prize@ == total_paid(self@.participants),
    {
        let ghost s = entries_view(self.participants.entries());
        let mut prize = BigNat::zero();
        let mut i: usize = 0;
        let n = self.participants.len();
        while i < n
            invariant
                n == s.len(),
                s == entries_view(self.participants.entries()),
                i <= n,
                prize@ == total_paid(s.subrange(0, i as int)),
            decreases n - i,
        {
            let e = self.participants.entry_at(i);
            proof {
                assert(s.subrange(0, i + 1).drop_last() =~= s.subrange(0, i as int));
                assert(s[i as int].1 == e.1@);
            }
            prize = prize.add(&e.1);
            i = i + 1;
        }
        assert(s.subrange(0, n as int) =~= s);
        prize
    }

    /// `caller` is the drawn winner.
    fn is_winner(&self, caller: &Address) -> (b: bool)
        ensures
            b == (self@.winner == Some(*caller)),
    {
        match &self.winner {
            Some(w) => w.same(caller),
            None => false,
        }
    }

    /// The drawn winner, if any.
    fn get_winner(&self) -> (w: Option<Address>)
        ensures
            w == self@.winner,
    {
        self.winner
    }
}

/// Every participant paid at least one EGLD, so the payments add up to at least
/// one EGLD per participant.
proof fn lemma_total_at_least(s: Seq<(Address, nat)>)
    requires
        forall|i: int| 0 <= i < s.len() ==> #[trigger] s[i].1 >= ONE_EGLD,
    ensures
        total_paid(s) >= s.len() * ONE_EGLD,
    decreases s.len(),
{
    if s.len() > 0 {
        let t = s.drop_last();
        assert forall|i: int| 0 <= i < t.len() implies #[trigger] t[i].1 >= ONE_EGLD by {
            assert(t[i] == s[i]);
        }
        lemma_total_at_least(t);
        assert(s[s.len() - 1].1 >= ONE_EGLD);
    }
}

/// A participation, a draw and a redeem that succeed each keep the lottery invariant.
pub proof fn law_calls_keep_invariant(s: LotteryState, p: Address, payment: nat, rand: u64)
    requires
        lottery_inv(s),
    ensures
        participate_result(s, p, payment) matches Ok(s2) ==> lottery_inv(s2),
        draw_result(s, rand) matches Ok(s2) ==> lottery_inv(s2),
        redeem_result(s, p) matches Ok((s2, _)) ==> lottery_inv(s2),
{
    if let Ok(s2) = participate_result(s, p, payment) {
        let t = s.participants;
        let u = t.push((p, payment));
        lemma_total_push(t, (p, payment));
        assert forall|i: int, j: int|
            #![trigger u[i], u[j]]
            0 <= i < u.len() && 0 <= j < u.len() && i != j implies u[i].0 != u[j].0 by {
            if i < t.len() && j < t.len() {
                assert(u[i] == t[i] && u[j] == t[j]);
            } else if i < t.len() {
                assert(u[i] == t[i]);
            } else {
                assert(u[j] == t[j]);
            }
        }
        assert forall|i: int| 0 <= i < u.len() implies #[trigger] u[i].1 >= ONE_EGLD by {
            if i < t.len() {
                assert(u[i] == t[i]);
            }
        }
    }
    if let Ok((s2, _)) = redeem_result(s, p) {
        assert(total_paid(s2.participants) == 0);
    }
}

/// An address can enter only once per round: after it entered, a second request with
/// a payment of at least one EGLD is refused as a repeated participation.
pub proof fn law_participate_only_once(s: LotteryState, p: Address, first: nat, second: nat)
    requires
        participate_result(s, p, first) is Ok,
        second >= ONE_EGLD,
    ensures
        participate_result(participate_result(s, p, first)->Ok_0, p, second)
            == Err::<LotteryState, LotteryError>(LotteryError::AlreadyParticipating),
{
    let s2 = participate_result(s, p, first)->Ok_0;
    assert(s2.participants[s.participants.len() as int].0 == p);
}

/// A draw names one of the participants as the winner and changes nothing else.
pub proof fn law_winner_is_participant(s: LotteryState, rand: u64)
    requires
        draw_result(s, rand) is Ok,
    ensures
        draw_result(s, rand)->Ok_0.winner matches Some(w) && seq_has_key(s.participants, w),
        draw_result(s, rand)->Ok_0.participants == s.participants,
{
    let n = s.participants.len() as int;
    let i = (rand as int) % n;
    assert(0 <= i < n);
    assert(draw_result(s, rand)->Ok_0.winner == Some(s.participants[i].0));
}

/// Only the drawn winner can redeem the prize.
pub proof fn law_only_winner_redeems(s: LotteryState, p: Address)
    requires
        redeem_result(s, p) is Ok,
    ensures
        s.winner == Some(p),
{
}

/// After a successful draw, the winner redeems the sum of all entry payments, at
/// least two EGLD, and the round is closed: no participants, no draw under way.
pub proof fn law_winner_redeems_all_payments(s: LotteryState, rand: u64)
    requires
        lottery_inv(s),
        draw_result(s, rand) is Ok,
    ensures
        ({
            let s2 = draw_result(s, rand)->Ok_0;
            let w = s2.winner->Some_0;
            &&& redeem_result(s2, w) is Ok
            &&& redeem_result(s2, w)->Ok_0.1 == total_paid(s.participants)
            &&& redeem_result(s2, w)->Ok_0.1 >= 2 * ONE_EGLD
            &&& redeem_result(s2, w)->Ok_0.0.participants.len() == 0
            &&& !redeem_result(s2, w)->Ok_0.0.is_executing
        }),
{
    lemma_total_at_least(s.participants);
    assert(s.participants.len() >= 2);
    assert(s.participants.len() * ONE_EGLD >= 2 * ONE_EGLD) by (nonlinear_arith)
        requires
            s.participants.len() >= 2,
    ;
}

/// Once the prize is redeemed, a new round is open: anyone may enter again.
pub proof fn law_redeem_reopens(s: LotteryState, winner: Address, p: Address, payment: nat)
    requires
        redeem_result(s, winner) is Ok,
        payment >= ONE_EGLD,
    ensures
        participate_result(redeem_result(s, winner)->Ok_0.0, p, payment) is Ok,
{
    let s2 = redeem_result(s, winner)->Ok_0.0;
    assert(total_paid(s2.participants) == 0);
    if seq_has_key(s2.participants, p) {
        let i = choose|i: int| #![trigger s2.participants[i]] 0 <= i < s2.participants.len() && s2.participants[i].0 == p;
        assert(false);
    }
}

} // verus!
