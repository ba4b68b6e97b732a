//! A contest and the rules that move it from waiting, through active, to ended.

use vstd::prelude::*;
use crate::address::Address;
use crate::error::TypingError;

verus! {

/// The number of participants a contest admits unless told otherwise.
pub const DEFAULT_MAX_PARTICIPANTS: u8 = 10;

/// The number of participants at which a waiting contest starts.
pub const MIN_PARTICIPANTS: usize = 2;

/// Where a contest stands in its life.
#[derive(Clone, Copy, Debug, PartialEq, Eq, Structural)]
pub enum ContestStatus {
    Waiting,
    Active,
    Ended,
}

impl ContestStatus {
    /// The status's place in the order waiting, active, ended.
    pub open spec fn rank(self) -> nat {
        match self {
            ContestStatus::Waiting => 0,
            ContestStatus::Active => 1,
            ContestStatus::Ended => 2,
        }
    }
}

/// What one participant achieved in one contest.
///
/// `position` is a placeholder until the results are ranked: a result is
/// taken in with position 0, and no transition of a contest, its end
/// included, assigns places. `Contest::rank_results` does, for an ended
/// contest, when it is called: by speed, the faster first, then by
/// accuracy, the more accurate first, then by the order of submission.
#[derive(Clone, Copy, Debug, PartialEq, Eq)]
pub struct ContestResult {
    pub player: Address,
    pub wpm: u32,
    pub accuracy: u32,
    pub time_taken: u64,
    pub position: u32,
}

/// One contest: who made it, over which text and for how long, where it
/// stands, who joined in which order, and what they achieved.
///
/// `duration` is kept and never enforced: a contest ends when the last
/// participant's result is in, or when a caller who has watched the time
/// ends it with `end_contest`. No operation ends it for the time alone.
#[derive(Clone, Debug, PartialEq, Eq)]
pub struct Contest {
    pub creator: Address,
    pub text_id: u32,
    pub duration: u64,
    pub status: ContestStatus,
    pub participants: Vec<Address>,
    pub results: Vec<ContestResult>,
    pub created_at: i64,
    pub started_at: Option<i64>,
    pub ended_at: Option<i64>,
    pub max_participants: u8,
}

/// A contest as a mathematical value, its lists as sequences.
pub struct ContestView {
    pub creator: Address,
    pub text_id: u32,
    pub duration: u64,
    pub status: ContestStatus,
    pub participants: Seq<Address>,
    pub results: Seq<ContestResult>,
    pub created_at: i64,
    pub started_at: Option<i64>,
    pub ended_at: Option<i64>,
    pub max_participants: u8,
}

impl View for Contest {
    type V = ContestView;

    open spec fn view(&self) -> ContestView {
        ContestView {
            creator: self.creator,
            text_id: self.text_id,
            duration: self.duration,
            status: self.status,
            participants: self.participants@,
            results: self.results@,
            created_at: self.created_at,
            started_at: self.started_at,
            ended_at: self.ended_at,
            max_participants: self.max_participants,
        }
    }
}

impl ContestView {
    /// A contest as it is made: waiting, with nobody in it.
    pub open spec fn created(creator: Address, text_id: u32, duration: u64, now: i64) -> ContestView {
        ContestView {
            creator,
            text_id,
            duration,
            status: ContestStatus::Waiting,
            participants: Seq::empty(),
            results: Seq::empty(),
            created_at: now,
            started_at: None,
            ended_at: None,
            max_participants: DEFAULT_MAX_PARTICIPANTS,
        }
    }

    /// Whether `player` has joined.
    pub open spec fn has_participant(self, player: Address) -> bool {
        self.participants.contains(player)
    }

    /// The players whose results are in, in the order of their submissions.
    pub open spec fn result_players(self) -> Seq<Address> {
        Seq::new(self.results.len(), |i: int| self.results[i].player)
    }

    /// Whether a result of `player` is in.
    pub open spec fn has_result(self, player: Address) -> bool {
        self.result_players().contains(player)
    }

    /// Whether the contest still admits a participant: it waits, and has
    /// room.
    pub open spec fn is_joinable(self) -> bool {
        self.status == ContestStatus::Waiting && self.participants.len() < self.max_participants
    }

    /// Why `player` may not join, if so.
    pub open spec fn join_error(self, player: Address) -> Option<TypingError> {
        if !self.is_joinable() {
            Some(TypingError::ContestFull)
        } else if self.has_participant(player) {
            Some(TypingError::AlreadyJoined)
        } else {
            None
        }
    }

    /// The contest with `player` added behind those who joined before.
    pub open spec fn with_participant(self, player: Address) -> ContestView {
        ContestView { participants: self.participants.push(player), ..self }
    }

    /// The contest after a start at `now`: a waiting contest becomes active
    /// and keeps the time; any other contest stays as it is.
    pub open spec fn started(self, now: i64) -> ContestView {
        if self.status == ContestStatus::Waiting {
            ContestView { status: ContestStatus::Active, started_at: Some(now), ..self }
        } else {
            self
        }
    }

    /// The contest after an end at `now`: an active contest becomes ended and
    /// keeps the time; any other contest stays as it is.
    pub open spec fn ended(self, now: i64) -> ContestView {
        if self.status == ContestStatus::Active {
            ContestView { status: ContestStatus::Ended, ended_at: Some(now), ..self }
        } else {
            self
        }
    }

    /// The contest after `player` asks to join at `now`. A rejected request
    /// changes nothing. An accepted one adds the player, and starts the
    /// contest where that brings it to its minimum size.
    pub open spec fn after_join(self, player: Address, now: i64) -> ContestView {
        if self.join_error(player).is_some() {
            self
        } else if self.participants.len() + 1 >= MIN_PARTICIPANTS {
            self.with_participant(player).started(now)
        } else {
            self.with_participant(player)
        }
    }

    /// Why a result of `player` is not accepted, if so.
    pub open spec fn submit_error(self, player: Address) -> Option<TypingError> {
        if self.status != ContestStatus::Active {
            Some(TypingError::ContestNotActive)
        } else if !self.has_participant(player) {
            Some(TypingError::PlayerNotInContest)
        } else if self.has_result(player) {
            Some(TypingError::ResultAlreadySubmitted)
        } else {
            None
        }
    }

    /// The contest with an unranked result of `player` added behind those
    /// submitted before.
    pub open spec fn with_result(self, player: Address, wpm: u32, accuracy: u32, time_taken: u64) -> ContestView {
        ContestView {
            results: self.results.push(ContestResult { player, wpm, accuracy, time_taken, position: 0 }),
            ..self
        }
    }

    /// The contest after `player` submits a result at `now`. A rejected
    /// submission changes nothing. An accepted one adds the result, and ends
    /// the contest where every participant's result is then in.
    pub open spec fn after_submit(
        self,
        player: Address,
        wpm: u32,
        accuracy: u32,
        time_taken: u64,
        now: i64,
    ) -> ContestView {
        if self.submit_error(player).is_some() {
            self
        } else if self.results.len() + 1 == self.participants.len() {
            self.with_result(player, wpm, accuracy, time_taken).ended(now)
        } else {
            self.with_result(player, wpm, accuracy, time_taken)
        }
    }

    /// What holds of every contest that was made by `created` and changed by
    /// this library's operations alone: nobody joined twice, no more joined
    /// than the contest admits, every result belongs to a participant, nobody
    /// has two results, and the times of start and end are kept exactly when
    /// the contest has passed that point.
    pub open spec fn wf(self) -> bool {
        &&& self.participants.no_duplicates()
        &&& self.participants.len() <= self.max_participants
        &&& self.result_players().no_duplicates()
        &&& forall|i: int| 0 <= i < self.results.len() ==> self.participants.contains(#[trigger] self.results[i].player)
        &&& self.results.len() <= self.participants.len()
        &&& match self.status {
            ContestStatus::Waiting => self.started_at.is_none() && self.ended_at.is_none() && self.results.len() == 0,
            ContestStatus::Active => self.started_at.is_some() && self.ended_at.is_none(),
            ContestStatus::Ended => self.started_at.is_some() && self.ended_at.is_some(),
        }
    }
}

impl ContestView {
    /// A participant without a result leaves room for one: fewer results are
    /// in than participants have joined.
    pub proof fn lemma_room_for_result(self, player: Address)
        requires
            self.wf(),
            self.has_participant(player),
            !self.has_result(player),
        ensures
            self.results.len() < self.participants.len(),
    {
        let submitted = self.result_players();
        submitted.unique_seq_to_set();
        self.participants.unique_seq_to_set();
        vstd::seq_lib::seq_to_set_is_finite(self.participants);
        let others = self.participants.to_set().remove(player);
        assert forall|a: Address| submitted.to_set().contains(a) implies others.contains(a) by {
            let i = choose|i: int| 0 <= i < submitted.len() && submitted[i] == a;
            assert(self.results[i].player == a);
        }
        vstd::set_lib::lemma_len_subset(submitted.to_set(), others);
    }

    /// A contest as it is made is well-formed.
    pub proof fn lemma_created_wf(creator: Address, text_id: u32, duration: u64, now: i64)
        ensures
            ContestView::created(creator, text_id, duration, now).wf(),
    {
    }

    /// A start keeps a contest well-formed and never moves its status back.
    pub proof fn lemma_started_wf(self, now: i64)
        requires
            self.wf(),
        ensures
            self.started(now).wf(),
            self.started(now).status.rank() >= self.status.rank(),
    {
        assert(self.started(now).result_players() == self.result_players());
    }

    /// An end keeps a contest well-formed and never moves its status back.
    pub proof fn lemma_ended_wf(self, now: i64)
        requires
            self.wf(),
        ensures
            self.ended(now).wf(),
            self.ended(now).status.rank() >= self.status.rank(),
    {
        assert(self.ended(now).result_players() == self.result_players());
    }

    /// Adding a participant whom `join_error` lets in keeps a contest
    /// well-formed.
    pub proof fn lemma_with_participant_wf(self, player: Address)
        requires
            self.wf(),
            self.join_error(player).is_none(),
        ensures
            self.with_participant(player).wf(),
    {
        let next = self.with_participant(player);
        assert(next.result_players() == self.result_players());
        assert forall|i: int| 0 <= i < next.results.len() implies next.participants.contains(
            #[trigger] next.results[i].player,
        ) by {
            let k = choose|k: int| 0 <= k < self.participants.len() && self.participants[k] == self.results[i].player;
            assert(next.participants[k] == self.results[i].player);
        }
    }

    /// Adding a result that `submit_error` lets in keeps a contest
    /// well-formed.
    pub proof fn lemma_with_result_wf(self, player: Address, wpm: u32, accuracy: u32, time_taken: u64)
        requires
            self.wf(),
            self.submit_error(player).is_none(),
        ensures
            self.with_result(player, wpm, accuracy, time_taken).wf(),
    {
        let next = self.with_result(player, wpm, accuracy, time_taken);
        self.lemma_room_for_result(player);
        assert(next.result_players() == self.result_players().push(player));
        assert forall|i: int, j: int|
            0 <= i < next.result_players().len() && 0 <= j < next.result_players().len() && i != j implies next.result_players()[i]
            != next.result_players()[j] by {
            if i < self.results.len() && j < self.results.len() {
                assert(self.result_players()[i] != self.result_players()[j]);
            } else if i < self.results.len() {
                assert(self.result_players()[i] != player);
            } else {
                assert(self.result_players()[j] != player);
            }
        }
    }

    /// A request to join, accepted or not, keeps a contest well-formed and
    /// never moves its status back.
    pub proof fn lemma_after_join_wf(self, player: Address, now: i64)
        requires
            self.wf(),
        ensures
            self.after_join(player, now).wf(),
            self.after_join(player, now).status.rank() >= self.status.rank(),
    {
        if self.join_error(player).is_none() {
            self.lemma_with_participant_wf(player);
            self.with_participant(player).lemma_started_wf(now);
        }
    }

    /// A submission, accepted or not, keeps a contest well-formed and never
    /// moves its status back.
    pub proof fn lemma_after_submit_wf(
        self,
        player: Address,
        wpm: u32,
        accuracy: u32,
        time_taken: u64,
        now: i64,
    )
        requires
            self.wf(),
        ensures
            self.after_submit(player, wpm, accuracy, time_taken, now).wf(),
            self.after_submit(player, wpm, accuracy, time_taken, now).status.rank() >= self.status.rank(),
    {
        if self.submit_error(player).is_none() {
            self.lemma_with_result_wf(player, wpm, accuracy, time_taken);
            self.with_result(player, wpm, accuracy, time_taken).lemma_ended_wf(now);
        }
    }
}

impl Contest {
    /// The number of bytes set aside for a stored contest record.
    pub const SIZE: usize = 32 + 4 + 8 + 1 + (32 * 10) + (64 * 10) + 8 + 9 + 9 + 1;

    /// A waiting contest with nobody in it, made at `timestamp`.
    pub fn new(creator: Address, text_id: u32, duration: u64, timestamp: i64) -> (contest: Contest)
        ensures
            contest@ == ContestView::created(creator, text_id, duration, timestamp),
            contest@.wf(),
    {
        Contest {
            creator,
            text_id,
            duration,
            status: ContestStatus::Waiting,
            participants: Vec::new(),
            results: Vec::new(),
            created_at: timestamp,
            started_at: None,
            ended_at: None,
            max_participants: DEFAULT_MAX_PARTICIPANTS,
        }
    }

    /// Whether the contest still admits a participant.
    pub fn can_join(&self) -> (r: bool)
        ensures
            r == self@.is_joinable(),
    {
        self.status == ContestStatus::Waiting && self.participants.len() < self.max_participants as usize
    }

    /// Whether `player` has joined.
    pub fn has_participant(&self, player: &Address) -> (r: bool)
        ensures
            r == self@.has_participant(*player),
    {
        let mut i: usize = 0;
        while i < self.participants.len()
            invariant
                i <= self.participants.len(),
                forall|j: int| 0 <= j < i ==> self.participants@[j] != *player,
            decreases self.participants.len() - i,
        {
            if self.participants[i].same(player) {
                return true;
            }
            i += 1;
        }
        false
    }

    /// Whether a result of `player` is in.
    pub fn has_result(&self, player: &Address) -> (r: bool)
        ensures
            r == self@.has_result(*player),
    {
        let mut i: usize = 0;
        while i < self.results.len()
            invariant
                i <= self.results.len(),
                forall|j: int| 0 <= j < i ==> self@.result_players()[j] != *player,
            decreases self.results.len() - i,
        {
            if self.results[i].player.same(player) {
                assert(self@.result_players()[i as int] == *player);
                return true;
            }
            i += 1;
        }
        false
    }

    /// Adds `player` where `join_error` finds no objection, and says which
    /// objection it found otherwise.
    pub(crate) fn enroll(&mut self, player: Address) -> (r: Result<(), TypingError>)
        ensures
            r == match old(self)@.join_error(player) {
                Some(e) => Err::<(), TypingError>(e),
                None => Ok(()),
            },
            r.is_err() ==> *final(self) == *old(self),
            r.is_ok() ==> final(self)@ == old(self)@.with_participant(player),
    {
        if !self.can_join() {
            return Err(TypingError::ContestFull);
        }
        if self.has_participant(&player) {
            return Err(TypingError::AlreadyJoined);
        }
        self.participants.push(player);
        Ok(())
    }

    /// Adds an unranked result of `player` where `submit_error` finds no
    /// objection, and says which objection it found otherwise.
    pub(crate) fn append_result(&mut self, player: Address, wpm: u32, accuracy: u32, time_taken: u64) -> (r: Result<
        (),
        TypingError,
    >)
        ensures
            r == match old(self)@.submit_error(player) {
                Some(e) => Err::<(), TypingError>(e),
                None => Ok(()),
            },
            r.is_err() ==> *final(self) == *old(self),
            r.is_ok() ==> final(self)@ == old(self)@.with_result(player, wpm, accuracy, time_taken),
    {
        if self.status != ContestStatus::Active {
            return Err(TypingError::ContestNotActive);
        }
        if !self.has_participant(&player) {
            return Err(TypingError::PlayerNotInContest);
        }
        if self.has_result(&player) {
            return Err(TypingError::ResultAlreadySubmitted);
        }
        self.results.push(ContestResult { player, wpm, accuracy, time_taken, position: 0 });
        Ok(())
    }

    /// Adds `player` to a waiting contest that has room and does not hold the
    /// player yet. A contest that does not wait or has no room answers
    /// "Cannot join contest", one that holds the player "Player already in
    /// contest"; either is left as it was.
    pub fn add_participant(&mut self, player: Address) -> (r: Result<(), &'static str>)
        ensures
            match old(self)@.join_error(player) {
                Some(TypingError::AlreadyJoined) => r == Err::<(), &str>("Player already in contest"),
                Some(_) => r == Err::<(), &str>("Cannot join contest"),
                None => r.is_ok(),
            },
            r.is_err() ==> *final(self) == *old(self),
            r.is_ok() ==> final(self)@ == old(self)@.with_participant(player),
            old(self)@.wf() ==> final(self)@.wf(),
            final(self)@.status == old(self)@.status,
    {
        proof {
            if old(self)@.wf() && old(self)@.join_error(player).is_none() {
                old(self)@.lemma_with_participant_wf(player);
            }
        }
        match self.enroll(player) {
            Ok(()) => Ok(()),
            Err(TypingError::AlreadyJoined) => Err("Player already in contest"),
            Err(_) => Err("Cannot join contest"),
        }
    }

    /// Starts a waiting contest at `timestamp`; leaves any other as it is.
    pub fn start_contest(&mut self, timestamp: i64)
        ensures
            final(self)@ == old(self)@.started(timestamp),
            old(self)@.wf() ==> final(self)@.wf(),
            final(self)@.status.rank() >= old(self)@.status.rank(),
    {
        proof {
            if old(self)@.wf() {
                old(self)@.lemma_started_wf(timestamp);
            }
        }
        if self.status == ContestStatus::Waiting {
            self.status = ContestStatus::Active;
            self.started_at = Some(timestamp);
        }
    }

    /// Ends an active contest at `timestamp`; leaves any other as it is.
    pub fn end_contest(&mut self, timestamp: i64)
        ensures
            final(self)@ == old(self)@.ended(timestamp),
            old(self)@.wf() ==> final(self)@.wf(),
            final(self)@.status.rank() >= old(self)@.status.rank(),
    {
        proof {
            if old(self)@.wf() {
                old(self)@.lemma_ended_wf(timestamp);
            }
        }
        if self.status == ContestStatus::Active {
            self.status = ContestStatus::Ended;
            self.ended_at = Some(timestamp);
        }
    }

    /// Adds an unranked result of `player` to an active contest in which the
    /// player takes part and has no result yet. A contest that is not active
    /// answers "Contest not active", one without the player "Player not in
    /// contest", one with a result of the player "Result already
    /// submitted"; each is left as it was.
    pub fn submit_result(&mut self, player: Address, wpm: u32, accuracy: u32, time_taken: u64) -> (r: Result<
        (),
        &'static str,
    >)
        ensures
            match old(self)@.submit_error(player) {
                Some(TypingError::ContestNotActive) => r == Err::<(), &str>("Contest not active"),
                Some(TypingError::PlayerNotInContest) => r == Err::<(), &str>("Player not in contest"),
                Some(_) => r == Err::<(), &str>("Result already submitted"),
                None => r.is_ok(),
            },
            r.is_err() ==> *final(self) == *old(self),
            r.is_ok() ==> final(self)@ == old(self)@.with_result(player, wpm, accuracy, time_taken),
            old(self)@.wf() ==> final(self)@.wf(),
            final(self)@.status == old(self)@.status,
    {
        proof {
            if old(self)@.wf() && old(self)@.submit_error(player).is_none() {
                old(self)@.lemma_with_result_wf(player, wpm, accuracy, time_taken);
            }
        }
        match self.append_result(player, wpm, accuracy, time_taken) {
            Ok(()) => Ok(()),
            Err(TypingError::ContestNotActive) => Err("Contest not active"),
            Err(TypingError::PlayerNotInContest) => Err("Player not in contest"),
            Err(_) => Err("Result already submitted"),
        }
    }

    /// Lets `player` join at `now`. Fails with `ContestFull` where the
    /// contest does not wait or has no room, and with `AlreadyJoined` where
    /// it holds the player; the contest is then left as it was. Otherwise the
    /// player is added behind the others, and the contest starts at `now`
    /// where that brings it to its minimum size.
    pub fn join(&mut self, player: Address, now: i64) -> (r: Result<(), TypingError>)
        ensures
            r == match old(self)@.join_error(player) {
                Some(e) => Err::<(), TypingError>(e),
                None => Ok(()),
            },
            r.is_err() ==> *final(self) == *old(self),
            final(self)@ == old(self)@.after_join(player, now),
            old(self)@.wf() ==> final(self)@.wf(),
            final(self)@.status.rank() >= old(self)@.status.rank(),
    {
        proof {
            if old(self)@.wf() {
                old(self)@.lemma_after_join_wf(player, now);
            }
        }
        match self.enroll(player) {
            Err(e) => Err(e),
            Ok(()) => {
                if self.participants.len() >= MIN_PARTICIPANTS {
                    self.start_contest(now);
                }
                Ok(())
            },
        }
    }

    /// Takes in the result that `player` submits at `now`. Fails with
    /// `ContestNotActive` where the contest is not active, with
    /// `PlayerNotInContest` where the player did not join, and with
    /// `ResultAlreadySubmitted` where a result of the player is in; the
    /// contest is then left as it was. Otherwise the result is added,
    /// unranked, and the contest ends at `now` where every participant's
    /// result is then in.
    pub fn submit(&mut self, player: Address, wpm: u32, accuracy: u32, time_taken: u64, now: i64) -> (r: Result<
        (),
        TypingError,
    >)
        ensures
            r == match old(self)@.submit_error(player) {
                Some(e) => Err::<(), TypingError>(e),
                None => Ok(()),
            },
            r.is_err() ==> *final(self) == *old(self),
            final(self)@ == old(self)@.after_submit(player, wpm, accuracy, time_taken, now),
            old(self)@.wf() ==> final(self)@.wf(),
            final(self)@.status.rank() >= old(self)@.status.rank(),
    {
        proof {
            if old(self)@.wf() {
                old(self)@.lemma_after_submit_wf(player, wpm, accuracy, time_taken, now);
            }
        }
        match self.append_result(player, wpm, accuracy, time_taken) {
            Err(e) => Err(e),
            Ok(()) => {
                if self.results.len() == self.participants.len() {
                    self.end_contest(now);
                }
                Ok(())
            },
        }
    }
}

} // verus!
