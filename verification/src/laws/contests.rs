//! A contest over a history of operations.

use vstd::prelude::*;
use crate::address::Address;
use crate::error::TypingError;
use crate::state::contest::{ContestResult, ContestStatus, ContestView};

verus! {

/// One operation on a contest, with what it is called with.
pub enum ContestEvent {
    /// `join`
    Join { player: Address, now: i64 },
    /// `submit`
    Submit { player: Address, wpm: u32, accuracy: u32, time_taken: u64, now: i64 },
    /// `add_participant`
    AddParticipant { player: Address },
    /// `start_contest`
    Start { now: i64 },
    /// `end_contest`
    End { now: i64 },
    /// `submit_result`
    AppendResult { player: Address, wpm: u32, accuracy: u32, time_taken: u64 },
    /// `rank_results`
    Rank,
}

impl ContestView {
    /// The contest after one operation, accepted or not.
    pub open spec fn step(self, event: ContestEvent) -> ContestView {
        match event {
            ContestEvent::Join { player, now } => self.after_join(player, now),
            ContestEvent::Submit { player, wpm, accuracy, time_taken, now } => self.after_submit(
                player,
                wpm,
                accuracy,
                time_taken,
                now,
            ),
            ContestEvent::AddParticipant { player } => if self.join_error(player).is_none() {
                self.with_participant(player)
            } else {
                self
            },
            ContestEvent::Start { now } => self.started(now),
            ContestEvent::End { now } => self.ended(now),
            ContestEvent::AppendResult { player, wpm, accuracy, time_taken } => if self.submit_error(
                player,
            ).is_none() {
                self.with_result(player, wpm, accuracy, time_taken)
            } else {
                self
            },
            ContestEvent::Rank => if self.rankable() {
                self.ranked()
            } else {
                self
            },
        }
    }

    /// Whether the results of `later` begin with the results of this
    /// contest, each as it was submitted; only places may differ.
    pub open spec fn results_kept_in(self, later: ContestView) -> bool {
        &&& self.results.len() <= later.results.len()
        &&& forall|i: int|
            0 <= i < self.results.len() ==> {
                &&& (#[trigger] later.results[i]).player == self.results[i].player
                &&& later.results[i].wpm == self.results[i].wpm
                &&& later.results[i].accuracy == self.results[i].accuracy
                &&& later.results[i].time_taken == self.results[i].time_taken
            }
    }

    /// The contest after `events`, one after the other.
    pub open spec fn run(self, events: Seq<ContestEvent>) -> ContestView
        decreases events.len(),
    {
        if events.len() == 0 {
            self
        } else {
            self.run(events.drop_last()).step(events.last())
        }
    }

    /// Whether `later` can follow this contest: the status is not behind,
    /// those who joined and what they submitted are still there in their
    /// order and unchanged but for the places, a time of start or end once
    /// set is the same, and what a contest is made with is the same.
    pub open spec fn precedes(self, later: ContestView) -> bool {
        &&& self.status.rank() <= later.status.rank()
        &&& self.participants.is_prefix_of(later.participants)
        &&& self.results_kept_in(later)
        &&& self.started_at.is_some() ==> later.started_at == self.started_at
        &&& self.ended_at.is_some() ==> later.ended_at == self.ended_at
        &&& later.creator == self.creator
        &&& later.text_id == self.text_id
        &&& later.duration == self.duration
        &&& later.created_at == self.created_at
        &&& later.max_participants == self.max_participants
    }

    /// One operation keeps a well-formed contest well-formed, and only moves
    /// it forward.
    pub proof fn lemma_step(self, event: ContestEvent)
        requires
            self.wf(),
        ensures
            self.step(event).wf(),
            self.precedes(self.step(event)),
    {
        match event {
            ContestEvent::Join { player, now } => {
                self.lemma_after_join_wf(player, now);
            },
            ContestEvent::Submit { player, wpm, accuracy, time_taken, now } => {
                self.lemma_after_submit_wf(player, wpm, accuracy, time_taken, now);
            },
            ContestEvent::AddParticipant { player } => {
                if self.join_error(player).is_none() {
                    self.lemma_with_participant_wf(player);
                }
            },
            ContestEvent::Start { now } => {
                self.lemma_started_wf(now);
            },
            ContestEvent::End { now } => {
                self.lemma_ended_wf(now);
            },
            ContestEvent::AppendResult { player, wpm, accuracy, time_taken } => {
                if self.submit_error(player).is_none() {
                    self.lemma_with_result_wf(player, wpm, accuracy, time_taken);
                }
            },
            ContestEvent::Rank => {
                self.lemma_ranked();
            },
        }
    }

    /// What follows what follows a contest follows the contest.
    pub proof fn lemma_precedes_transitive(self, middle: ContestView, later: ContestView)
        requires
            self.precedes(middle),
            middle.precedes(later),
        ensures
            self.precedes(later),
    {
        assert forall|i: int| 0 <= i < self.participants.len() implies self.participants[i]
            == later.participants[i] by {
            assert(self.participants[i] == middle.participants[i]);
        }
        assert(self.participants =~= later.participants.subrange(0, self.participants.len() as int));
    }

    /// Whatever the operations and their order, a well-formed contest stays
    /// well-formed and only moves forward. So, of a contest that was made
    /// and then only operated on: nobody is in its list of participants
    /// twice, it has no more results than participants and one result for a
    /// participant at most, and its status never goes back.
    pub proof fn lemma_run(self, events: Seq<ContestEvent>)
        requires
            self.wf(),
        ensures
            self.run(events).wf(),
            self.precedes(self.run(events)),
            self.run(events).participants.no_duplicates(),
            self.run(events).results.len() <= self.run(events).participants.len(),
            self.run(events).result_players().no_duplicates(),
            self.run(events).status.rank() >= self.status.rank(),
        decreases events.len(),
    {
        if events.len() > 0 {
            self.lemma_run(events.drop_last());
            self.run(events.drop_last()).lemma_step(events.last());
            self.lemma_precedes_transitive(self.run(events.drop_last()), self.run(events));
        }
    }

    /// The status at any point of a history is not behind the status at an
    /// earlier point of it.
    pub proof fn lemma_status_monotonic(self, events: Seq<ContestEvent>, earlier: int, later: int)
        requires
            self.wf(),
            0 <= earlier <= later <= events.len(),
        ensures
            self.run(events.take(earlier)).status.rank() <= self.run(events.take(later)).status.rank(),
        decreases later - earlier,
    {
        if earlier < later {
            self.lemma_status_monotonic(events, earlier, later - 1);
            self.lemma_run(events.take(later - 1));
            assert(events.take(later).drop_last() =~= events.take(later - 1));
            self.run(events.take(later - 1)).lemma_step(events[later - 1]);
        }
    }
}

/// The second of two different players to join a new contest starts it: the
/// contest is then active, started at the time of that join, with the two
/// in the order of their joining.
pub proof fn lemma_second_join_starts(
    creator: Address,
    text_id: u32,
    duration: u64,
    created_at: i64,
    first: Address,
    joined_at: i64,
    second: Address,
    started_at: i64,
)
    requires
        first != second,
    ensures
        ({
            let one = ContestView::created(creator, text_id, duration, created_at).after_join(first, joined_at);
            let two = one.after_join(second, started_at);
            &&& one.status == ContestStatus::Waiting
            &&& one.participants == seq![first]
            &&& two.status == ContestStatus::Active
            &&& two.started_at == Some(started_at)
            &&& two.ended_at.is_none()
            &&& two.participants == seq![first, second]
            &&& two.join_error(first) == Some(TypingError::ContestFull)
        }),
{
    let new = ContestView::created(creator, text_id, duration, created_at);
    let one = new.after_join(first, joined_at);
    assert(one.participants =~= seq![first]);
    assert(!one.participants.contains(second));
    let two = one.after_join(second, started_at);
    assert(two.participants =~= seq![first, second]);
}

/// The last result of an active contest ends it: once every participant but
/// one has a result in and that one submits, the contest is ended, at the
/// time of that submission, and takes no further result.
pub proof fn lemma_last_result_ends(
    contest: ContestView,
    player: Address,
    wpm: u32,
    accuracy: u32,
    time_taken: u64,
    now: i64,
)
    requires
        contest.wf(),
        contest.status == ContestStatus::Active,
        contest.has_participant(player),
        !contest.has_result(player),
        contest.results.len() + 1 == contest.participants.len(),
    ensures
        ({
            let after = contest.after_submit(player, wpm, accuracy, time_taken, now);
            &&& after.status == ContestStatus::Ended
            &&& after.ended_at == Some(now)
            &&& after.started_at == contest.started_at
            &&& after.results.len() == after.participants.len()
            &&& after.results.last() == (ContestResult { player, wpm, accuracy, time_taken, position: 0 })
            &&& forall|other: Address| after.submit_error(other) == Some(TypingError::ContestNotActive)
        }),
{
}

} // verus!
