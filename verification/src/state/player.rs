//! A player's running statistics.

use vstd::prelude::*;
use crate::address::Address;

verus! {

/// The statistics kept for one owner: how many attempts were recorded, the
/// best and the running average speed, the best accuracy, the words typed in
/// all, and when the record was made and last touched.
#[derive(Clone, Debug, PartialEq, Eq)]
pub struct Player {
    pub owner: Address,
    pub total_tests: u32,
    pub best_wpm: u32,
    pub average_wpm: u32,
    pub best_accuracy: u32,
    pub total_words_typed: u64,
    pub created_at: i64,
    pub last_activity: i64,
}

impl Player {
    /// The number of bytes a stored player record takes.
    pub const SIZE: usize = 32 + 4 + 4 + 4 + 4 + 8 + 8 + 8;

    /// The record of an owner who has not typed yet, made at `now`.
    pub open spec fn created(owner: Address, now: i64) -> Player {
        Player {
            owner,
            total_tests: 0,
            best_wpm: 0,
            average_wpm: 0,
            best_accuracy: 0,
            total_words_typed: 0,
            created_at: now,
            last_activity: now,
        }
    }

    /// Whether one more attempt of `words_typed` words fits the counters.
    pub open spec fn can_record(self, words_typed: u32) -> bool {
        self.total_tests < u32::MAX && self.total_words_typed + words_typed <= u64::MAX
    }

    /// The running average once an attempt at `wpm` joins the
    /// `total_tests` attempts behind `average_wpm`, rounded down.
    pub open spec fn rolled_average(self, wpm: u32) -> int {
        (self.average_wpm * self.total_tests + wpm) / (self.total_tests + 1)
    }

    /// The record after one more attempt, recorded at `now`.
    pub open spec fn recorded(self, wpm: u32, accuracy: u32, words_typed: u32, now: i64) -> Player {
        Player {
            owner: self.owner,
            total_tests: (self.total_tests + 1) as u32,
            best_wpm: if wpm > self.best_wpm { wpm } else { self.best_wpm },
            average_wpm: self.rolled_average(wpm) as u32,
            best_accuracy: if accuracy > self.best_accuracy { accuracy } else { self.best_accuracy },
            total_words_typed: (self.total_words_typed + words_typed) as u64,
            created_at: self.created_at,
            last_activity: now,
        }
    }

    /// The running average never leaves the range of the speeds it averages:
    /// it lies between the smaller and the larger of the old average and the
    /// new speed.
    pub proof fn lemma_rolled_average_bounds(self, wpm: u32)
        ensures
            self.average_wpm <= wpm ==> self.average_wpm <= self.rolled_average(wpm) <= wpm,
            wpm <= self.average_wpm ==> wpm <= self.rolled_average(wpm) <= self.average_wpm,
            0 <= self.rolled_average(wpm) <= u32::MAX,
    {
        let a = self.average_wpm as int;
        let n = self.total_tests as int;
        let w = wpm as int;
        let q = (a * n + w) / (n + 1);
        assert(a <= w ==> a <= q <= w) by (nonlinear_arith)
            requires
                q == (a * n + w) / (n + 1),
                0 <= a,
                0 <= n,
                0 <= w,
        ;
        assert(w <= a ==> w <= q <= a) by (nonlinear_arith)
            requires
                q == (a * n + w) / (n + 1),
                0 <= a,
                0 <= n,
                0 <= w,
        ;
    }

    /// A zeroed record for `owner`, stamped with `timestamp`.
    pub fn new(owner: Address, timestamp: i64) -> (player: Player)
        ensures
            player == Player::created(owner, timestamp),
    {
        Player {
            owner,
            total_tests: 0,
            best_wpm: 0,
            average_wpm: 0,
            best_accuracy: 0,
            total_words_typed: 0,
            created_at: timestamp,
            last_activity: timestamp,
        }
    }

    /// Whether one more attempt of `words_typed` words fits the counters.
    pub fn has_room_for(&self, words_typed: u32) -> (r: bool)
        ensures
            r == self.can_record(words_typed),
    {
        self.total_tests < u32::MAX && self.total_words_typed <= u64::MAX - (words_typed as u64)
    }

    /// Records one attempt: one more test, the maxima raised where the
    /// attempt beats them, the words added, the average rolled forward from
    /// the previous average and count, and the time of the attempt kept.
    pub fn update_practice_stats(&mut self, wpm: u32, accuracy: u32, words_typed: u32, timestamp: i64)
        requires
            old(self).can_record(words_typed),
        ensures
            *final(self) == old(self).recorded(wpm, accuracy, words_typed, timestamp),
    {
        let before: u64 = self.total_tests as u64;
        let average: u64 = self.average_wpm as u64;
        proof {
            self.lemma_rolled_average_bounds(wpm);
            assert(average * before <= 0xffff_ffff * 0xffff_ffff) by (nonlinear_arith)
                requires
                    0 <= average <= 0xffff_ffff,
                    0 <= before <= 0xffff_ffff,
            ;
        }
        let rolled: u64 = (average * before + (wpm as u64)) / (before + 1);
        self.total_tests = self.total_tests + 1;
        if wpm > self.best_wpm {
            self.best_wpm = wpm;
        }
        if accuracy > self.best_accuracy {
            self.best_accuracy = accuracy;
        }
        self.total_words_typed = self.total_words_typed + (words_typed as u64);
        self.average_wpm = rolled as u32;
        self.last_activity = timestamp;
    }
}

} // verus!
