//! The ranking of the results of an ended contest.
//!
//! No transition of a contest ranks its results: they are stored unranked.
//! The ranking is an operation of its own, for whoever reads an ended
//! contest and needs the places. The faster result is placed before the
//! slower; of two as fast, the more accurate first; of two alike in both,
//! the one submitted first.

use vstd::prelude::*;
use crate::state::contest::{Contest, ContestResult, ContestStatus, ContestView};

verus! {

impl ContestResult {
    /// Whether this result is better than `other`: faster, or as fast and
    /// more accurate.
    pub open spec fn beats(self, other: ContestResult) -> bool {
        self.wpm > other.wpm || (self.wpm == other.wpm && self.accuracy > other.accuracy)
    }

    /// Whether this result is better than `other`.
    pub fn is_better_than(&self, other: &ContestResult) -> (r: bool)
        ensures
            r == self.beats(*other),
    {
        self.wpm > other.wpm || (self.wpm == other.wpm && self.accuracy > other.accuracy)
    }
}

impl ContestView {
    /// Whether the result at `i` is placed before the result at `j`: it is
    /// the better one, or neither is better and it was submitted first.
    pub open spec fn outranks(self, i: int, j: int) -> bool {
        self.results[i].beats(self.results[j]) || (!self.results[j].beats(self.results[i]) && i < j)
    }

    /// How many of the first `n` results are placed before the result at
    /// `i`.
    pub open spec fn ahead_of(self, i: int, n: int) -> nat
        decreases n,
    {
        if n <= 0 {
            0
        } else if self.outranks(n - 1, i) {
            self.ahead_of(i, n - 1) + 1
        } else {
            self.ahead_of(i, n - 1)
        }
    }

    /// The place of the result at `i`, counted from 1.
    pub open spec fn rank(self, i: int) -> nat {
        self.ahead_of(i, self.results.len() as int) + 1
    }

    /// Whether the results can be ranked: the contest has ended, and the
    /// places fit the field that holds them.
    pub open spec fn rankable(self) -> bool {
        self.status == ContestStatus::Ended && self.results.len() <= u32::MAX
    }

    /// The contest with every result given its place.
    pub open spec fn ranked(self) -> ContestView {
        ContestView {
            results: Seq::new(
                self.results.len(),
                |i: int|
                    ContestResult {
                        player: self.results[i].player,
                        wpm: self.results[i].wpm,
                        accuracy: self.results[i].accuracy,
                        time_taken: self.results[i].time_taken,
                        position: self.rank(i) as u32,
                    },
            ),
            ..self
        }
    }

    /// Fewer than `n` of the first `n` results are placed before one of
    /// them, and no more than `n` before any.
    pub proof fn lemma_ahead_of_bound(self, i: int, n: int)
        requires
            0 <= n,
        ensures
            self.ahead_of(i, n) <= n,
            0 <= i < n ==> self.ahead_of(i, n) < n,
        decreases n,
    {
        if n > 0 {
            self.lemma_ahead_of_bound(i, n - 1);
        }
    }

    /// Every place lies between 1 and the number of results.
    pub proof fn lemma_rank_bounds(self, i: int)
        requires
            0 <= i < self.results.len(),
        ensures
            1 <= self.rank(i) <= self.results.len(),
    {
        self.lemma_ahead_of_bound(i, self.results.len() as int);
    }

    /// Where the result at `i` is placed before the result at `j`, whatever
    /// is placed before `i` is placed before `j` too, and so is `i` itself.
    proof fn lemma_ahead_of_ordered(self, i: int, j: int, n: int)
        requires
            0 <= n,
            self.outranks(i, j),
        ensures
            self.ahead_of(i, n) <= self.ahead_of(j, n),
            0 <= i < n ==> self.ahead_of(i, n) < self.ahead_of(j, n),
        decreases n,
    {
        if n > 0 {
            self.lemma_ahead_of_ordered(i, j, n - 1);
        }
    }

    /// The places follow the order of the results: a result that is placed
    /// before another has the smaller place.
    pub proof fn lemma_rank_ordered(self, i: int, j: int)
        requires
            0 <= i < self.results.len(),
            0 <= j < self.results.len(),
            self.outranks(i, j),
        ensures
            self.rank(i) < self.rank(j),
    {
        self.lemma_ahead_of_ordered(i, j, self.results.len() as int);
    }

    /// No two results share a place.
    pub proof fn lemma_ranks_distinct(self, i: int, j: int)
        requires
            0 <= i < self.results.len(),
            0 <= j < self.results.len(),
            i != j,
        ensures
            self.rank(i) != self.rank(j),
    {
        if self.outranks(i, j) {
            self.lemma_rank_ordered(i, j);
        } else {
            self.lemma_rank_ordered(j, i);
        }
    }

    /// The places do not depend on places given before.
    proof fn lemma_ahead_of_ranked(self, i: int, n: int)
        requires
            0 <= i < self.results.len(),
            0 <= n <= self.results.len(),
        ensures
            self.ranked().ahead_of(i, n) == self.ahead_of(i, n),
        decreases n,
    {
        if n > 0 {
            self.lemma_ahead_of_ranked(i, n - 1);
        }
    }

    /// Ranking changes the places and nothing else, keeps a well-formed
    /// contest well-formed, and ranking again changes nothing.
    pub proof fn lemma_ranked(self)
        ensures
            self.ranked().result_players() == self.result_players(),
            self.wf() ==> self.ranked().wf(),
            self.ranked().ranked() == self.ranked(),
    {
        assert(self.ranked().result_players() =~= self.result_players());
        assert forall|i: int| 0 <= i < self.results.len() implies self.ranked().rank(i) == self.rank(i) by {
            self.lemma_ahead_of_ranked(i, self.results.len() as int);
        }
        assert(self.ranked().ranked().results =~= self.ranked().results);
    }
}

impl Contest {
    /// How many results are placed before the result at `i`.
    fn count_ahead_of(&self, i: usize) -> (count: usize)
        requires
            i < self.results.len(),
        ensures
            count == self@.ahead_of(i as int, self.results.len() as int),
            count < self.results.len(),
    {
        let mut count: usize = 0;
        let mut k: usize = 0;
        while k < self.results.len()
            invariant
                k <= self.results.len(),
                i < self.results.len(),
                count == self@.ahead_of(i as int, k as int),
                count <= k,
            decreases self.results.len() - k,
        {
            let ahead = self.results[k].is_better_than(&self.results[i]) || (!self.results[i].is_better_than(
                &self.results[k],
            ) && k < i);
            if ahead {
                count += 1;
            }
            k += 1;
        }
        proof {
            self@.lemma_ahead_of_bound(i as int, self.results.len() as int);
        }
        count
    }

    /// Gives every result of an ended contest its place: 1 for the best,
    /// and so on, by speed, then by accuracy, then by the order of
    /// submission. Says whether it did; a contest that has not ended, or
    /// with more results than a place can number, is left as it was.
    pub fn rank_results(&mut self) -> (ranked: bool)
        ensures
            ranked == old(self)@.rankable(),
            ranked ==> final(self)@ == old(self)@.ranked(),
            !ranked ==> *final(self) == *old(self),
            old(self)@.wf() ==> final(self)@.wf(),
    {
        if self.status != ContestStatus::Ended || self.results.len() > u32::MAX as usize {
            return false;
        }
        proof {
            self@.lemma_ranked();
        }
        let mut placed: Vec<ContestResult> = Vec::new();
        let mut i: usize = 0;
        while i < self.results.len()
            invariant
                i <= self.results.len(),
                self.results.len() <= u32::MAX,
                *self == *old(self),
                placed@ == self@.ranked().results.take(i as int),
            decreases self.results.len() - i,
        {
            let ahead = self.count_ahead_of(i);
            let result = ContestResult {
                player: self.results[i].player,
                wpm: self.results[i].wpm,
                accuracy: self.results[i].accuracy,
                time_taken: self.results[i].time_taken,
                position: (ahead + 1) as u32,
            };
            placed.push(result);
            assert(placed@ =~= self@.ranked().results.take(i + 1));
            i += 1;
        }
        assert(placed@ =~= self@.ranked().results);
        self.results = placed;
        true
    }
}

} // verus!
