//! A player's statistics over a history of attempts.

use vstd::prelude::*;
use vstd::arithmetic::div_mod::{lemma_fundamental_div_mod, lemma_fundamental_div_mod_converse, lemma_mod_bound};
use crate::address::Address;
use crate::state::player::Player;

verus! {

/// One attempt as it is recorded: the speed, the accuracy, the words typed,
/// and the time of recording.
pub struct Attempt {
    pub wpm: u32,
    pub accuracy: u32,
    pub words_typed: u32,
    pub now: i64,
}

impl Player {
    /// The record after `attempts` are recorded one after the other.
    pub open spec fn after(self, attempts: Seq<Attempt>) -> Player
        decreases attempts.len(),
    {
        if attempts.len() == 0 {
            self
        } else {
            let last = attempts.last();
            self.after(attempts.drop_last()).recorded(last.wpm, last.accuracy, last.words_typed, last.now)
        }
    }

    /// Whether each of `attempts`, recorded in turn, fits the counters of
    /// the record it meets.
    pub open spec fn accepts(self, attempts: Seq<Attempt>) -> bool
        decreases attempts.len(),
    {
        attempts.len() == 0 || (self.accepts(attempts.drop_last()) && self.after(attempts.drop_last()).can_record(
            attempts.last().words_typed,
        ))
    }
}

/// The sum of the speeds of `attempts`.
pub open spec fn wpm_sum(attempts: Seq<Attempt>) -> int
    decreases attempts.len(),
{
    if attempts.len() == 0 {
        0
    } else {
        wpm_sum(attempts.drop_last()) + attempts.last().wpm
    }
}

/// The mean of the speeds of `attempts`, rounded down.
pub open spec fn truncated_mean(attempts: Seq<Attempt>) -> int {
    wpm_sum(attempts) / (attempts.len() as int)
}

/// What the running average of a new player has lost to rounding once
/// `attempts` are recorded: the sum of the speeds less the average times
/// their number.
pub open spec fn rounding_loss(owner: Address, created_at: i64, attempts: Seq<Attempt>) -> int {
    wpm_sum(attempts) - attempts.len() * Player::created(owner, created_at).after(attempts).average_wpm
}

/// Recording attempts counts them, and leaves the owner and the time of
/// creation alone.
pub proof fn lemma_attempts_counted(owner: Address, created_at: i64, attempts: Seq<Attempt>)
    requires
        Player::created(owner, created_at).accepts(attempts),
    ensures
        Player::created(owner, created_at).after(attempts).total_tests == attempts.len(),
        Player::created(owner, created_at).after(attempts).owner == owner,
        Player::created(owner, created_at).after(attempts).created_at == created_at,
    decreases attempts.len(),
{
    if attempts.len() > 0 {
        lemma_attempts_counted(owner, created_at, attempts.drop_last());
    }
}

/// Attempts recorded in two batches leave the record that they leave when
/// recorded in one: how a history is grouped does not matter.
pub proof fn lemma_batches(start: Player, first: Seq<Attempt>, second: Seq<Attempt>)
    ensures
        start.after(first + second) == start.after(first).after(second),
        start.accepts(first + second) == (start.accepts(first) && start.after(first).accepts(second)),
    decreases second.len(),
{
    if second.len() == 0 {
        assert(first + second =~= first);
    } else {
        lemma_batches(start, first, second.drop_last());
        assert((first + second).drop_last() =~= first + second.drop_last());
    }
}

/// The sum of the words of `attempts`.
pub open spec fn words_sum(attempts: Seq<Attempt>) -> int
    decreases attempts.len(),
{
    if attempts.len() == 0 {
        0
    } else {
        words_sum(attempts.drop_last()) + attempts.last().words_typed
    }
}

/// The best speed and the best accuracy are running maxima: no attempt
/// beats them, and each is the value of some attempt, or 0 where there is
/// none. The words typed are the sum over the attempts, and the last
/// activity is the time of the last attempt.
pub proof fn lemma_bests_and_totals(owner: Address, created_at: i64, attempts: Seq<Attempt>)
    requires
        Player::created(owner, created_at).accepts(attempts),
    ensures
        forall|i: int|
            0 <= i < attempts.len() ==> (#[trigger] attempts[i]).wpm <= Player::created(owner, created_at).after(
                attempts,
            ).best_wpm,
        forall|i: int|
            0 <= i < attempts.len() ==> (#[trigger] attempts[i]).accuracy <= Player::created(
                owner,
                created_at,
            ).after(attempts).best_accuracy,
        attempts.len() == 0 ==> Player::created(owner, created_at).after(attempts) == Player::created(
            owner,
            created_at,
        ),
        attempts.len() > 0 ==> exists|i: int|
            0 <= i < attempts.len() && (#[trigger] attempts[i]).wpm == Player::created(owner, created_at).after(
                attempts,
            ).best_wpm,
        attempts.len() > 0 ==> exists|i: int|
            0 <= i < attempts.len() && (#[trigger] attempts[i]).accuracy == Player::created(
                owner,
                created_at,
            ).after(attempts).best_accuracy,
        Player::created(owner, created_at).after(attempts).total_words_typed == words_sum(attempts),
        attempts.len() > 0 ==> Player::created(owner, created_at).after(attempts).last_activity
            == attempts.last().now,
    decreases attempts.len(),
{
    if attempts.len() > 0 {
        let earlier = attempts.drop_last();
        let start = Player::created(owner, created_at);
        let before = start.after(earlier);
        let now = start.after(attempts);
        let last = attempts.len() - 1;
        lemma_bests_and_totals(owner, created_at, earlier);
        assert forall|i: int| 0 <= i < attempts.len() implies (#[trigger] attempts[i]).wpm <= now.best_wpm
            && attempts[i].accuracy <= now.best_accuracy by {
            if i < last {
                assert(attempts[i] == earlier[i]);
            }
        }
        if attempts[last].wpm > before.best_wpm || earlier.len() == 0 {
            assert(attempts[last].wpm == now.best_wpm);
        } else {
            let i = choose|i: int| 0 <= i < earlier.len() && (#[trigger] earlier[i]).wpm == before.best_wpm;
            assert(attempts[i].wpm == now.best_wpm);
        }
        if attempts[last].accuracy > before.best_accuracy || earlier.len() == 0 {
            assert(attempts[last].accuracy == now.best_accuracy);
        } else {
            let i = choose|i: int| 0 <= i < earlier.len() && (#[trigger] earlier[i]).accuracy == before.best_accuracy;
            assert(attempts[i].accuracy == now.best_accuracy);
        }
    }
}

/// The running average never exceeds the mean: rounding only ever loses.
pub proof fn lemma_average_at_most_mean(owner: Address, created_at: i64, attempts: Seq<Attempt>)
    requires
        Player::created(owner, created_at).accepts(attempts),
    ensures
        rounding_loss(owner, created_at, attempts) >= 0,
        attempts.len() > 0 ==> Player::created(owner, created_at).after(attempts).average_wpm <= truncated_mean(
            attempts,
        ),
    decreases attempts.len(),
{
    if attempts.len() > 0 {
        let start = Player::created(owner, created_at);
        let earlier = attempts.drop_last();
        let before = start.after(earlier);
        let n = attempts.len() as int;
        let sum = wpm_sum(attempts);
        let w = attempts.last().wpm as int;
        lemma_attempts_counted(owner, created_at, earlier);
        lemma_average_at_most_mean(owner, created_at, earlier);
        before.lemma_rolled_average_bounds(attempts.last().wpm);
        let numerator = before.average_wpm * (n - 1) + w;
        let average = start.after(attempts).average_wpm as int;
        assert(average == numerator / n);
        lemma_fundamental_div_mod(numerator, n);
        lemma_mod_bound(numerator, n);
        lemma_fundamental_div_mod(sum, n);
        lemma_mod_bound(sum, n);
        let loss = rounding_loss(owner, created_at, earlier);
        assert(numerator == sum - loss) by (nonlinear_arith)
            requires
                numerator == before.average_wpm * (n - 1) + w,
                sum == wpm_sum(earlier) + w,
                loss == wpm_sum(earlier) - (n - 1) * before.average_wpm,
        ;
        assert(n * average <= numerator <= sum);
        assert(average <= sum / n) by (nonlinear_arith)
            requires
                n > 0,
                n * average <= sum,
                sum == n * (sum / n) + (sum % n),
                0 <= sum % n < n,
        ;
    }
}

/// After `n` attempts the running average of a new player is the mean of
/// the `n` speeds, rounded down, where the rounding lost before the last
/// attempt does not exceed the remainder that the sum of the speeds leaves
/// when divided by `n`.
pub proof fn lemma_average_is_truncated_mean(owner: Address, created_at: i64, attempts: Seq<Attempt>)
    requires
        Player::created(owner, created_at).accepts(attempts),
        attempts.len() > 0,
        rounding_loss(owner, created_at, attempts.drop_last()) <= wpm_sum(attempts) % (attempts.len() as int),
    ensures
        Player::created(owner, created_at).after(attempts).average_wpm == truncated_mean(attempts),
{
    let start = Player::created(owner, created_at);
    let earlier = attempts.drop_last();
    let before = start.after(earlier);
    let n = attempts.len() as int;
    let sum = wpm_sum(attempts);
    let w = attempts.last().wpm as int;
    let loss = rounding_loss(owner, created_at, earlier);
    lemma_attempts_counted(owner, created_at, earlier);
    lemma_average_at_most_mean(owner, created_at, earlier);
    before.lemma_rolled_average_bounds(attempts.last().wpm);
    let numerator = before.average_wpm * (n - 1) + w;
    assert(numerator == sum - loss) by (nonlinear_arith)
        requires
            numerator == before.average_wpm * (n - 1) + w,
            sum == wpm_sum(earlier) + w,
            loss == wpm_sum(earlier) - (n - 1) * before.average_wpm,
    ;
    lemma_fundamental_div_mod(sum, n);
    lemma_mod_bound(sum, n);
    assert(numerator == (sum / n) * n + (sum % n - loss)) by (nonlinear_arith)
        requires
            numerator == sum - loss,
            sum == n * (sum / n) + (sum % n),
    ;
    lemma_fundamental_div_mod_converse(numerator, n, sum / n, sum % n - loss);
}

/// Where the rounding lost before the last attempt exceeds that remainder,
/// the running average lies below the mean rounded down.
pub proof fn lemma_average_below_truncated_mean(owner: Address, created_at: i64, attempts: Seq<Attempt>)
    requires
        Player::created(owner, created_at).accepts(attempts),
        attempts.len() > 0,
        rounding_loss(owner, created_at, attempts.drop_last()) > wpm_sum(attempts) % (attempts.len() as int),
    ensures
        Player::created(owner, created_at).after(attempts).average_wpm < truncated_mean(attempts),
{
    let start = Player::created(owner, created_at);
    let earlier = attempts.drop_last();
    let before = start.after(earlier);
    let n = attempts.len() as int;
    let sum = wpm_sum(attempts);
    let w = attempts.last().wpm as int;
    let loss = rounding_loss(owner, created_at, earlier);
    lemma_attempts_counted(owner, created_at, earlier);
    before.lemma_rolled_average_bounds(attempts.last().wpm);
    let numerator = before.average_wpm * (n - 1) + w;
    let average = start.after(attempts).average_wpm as int;
    assert(average == numerator / n);
    assert(numerator == sum - loss) by (nonlinear_arith)
        requires
            numerator == before.average_wpm * (n - 1) + w,
            sum == wpm_sum(earlier) + w,
            loss == wpm_sum(earlier) - (n - 1) * before.average_wpm,
    ;
    lemma_fundamental_div_mod(sum, n);
    lemma_fundamental_div_mod(numerator, n);
    lemma_mod_bound(numerator, n);
    assert(average < sum / n) by (nonlinear_arith)
        requires
            n > 0,
            numerator == n * average + (numerator % n),
            0 <= numerator % n,
            numerator == sum - loss,
            sum == n * (sum / n) + (sum % n),
            loss > sum % n,
    ;
}

} // verus!
