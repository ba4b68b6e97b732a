//! What each command does, as mathematics: the accepted and the rejected
//! outcomes as functions of the accounts, the derived address and the time.

use vstd::prelude::*;
use crate::address::{derived_address, Address};
use crate::error::{ProcessError, TypingError};
use crate::instruction::TypingInstruction;
use crate::processor::{AccountView, Effect, Outcome, Processor, PLAYER_TAG};
use crate::state::contest::{Contest, ContestView, MIN_PARTICIPANTS};
use crate::state::player::Player;

verus! {

impl Processor {
    /// The acting identity of a command that needs `needed` accounts: the
    /// key of the first, which must have signed.
    pub open spec fn signer(accounts: Seq<AccountView>, needed: int) -> Result<Address, ProcessError> {
        if accounts.len() < needed {
            Err(ProcessError::NotEnoughAccountKeys)
        } else if !accounts[0].is_signer {
            Err(ProcessError::MissingRequiredSignature)
        } else {
            Ok(accounts[0].key)
        }
    }

    /// A derivation as bytes and nonce, as the ledger's search yields it.
    pub open spec fn lift(expected: Option<(Address, u8)>) -> Option<(Seq<u8>, u8)> {
        match expected {
            Some((address, nonce)) => Some((address@, nonce)),
            None => None,
        }
    }

    /// The derived address of the player record that belongs to the first
    /// account, if there is a first account and the ledger's search yields
    /// an address for it.
    pub open spec fn player_address(program: Address, accounts: Seq<AccountView>) -> Option<(Seq<u8>, u8)> {
        if accounts.len() > 0 {
            derived_address(PLAYER_TAG@, accounts[0].key@, program@)
        } else {
            None
        }
    }

    /// Whether `key` is the address that the derivation yielded.
    pub open spec fn is_expected(expected: Option<(Seq<u8>, u8)>, key: Address) -> bool {
        expected.is_some() && expected.unwrap().0 == key@
    }

    /// The accounts with the bytes of the one at `i` replaced.
    pub open spec fn with_data(accounts: Seq<AccountView>, i: int, data: Seq<u8>) -> Seq<AccountView> {
        accounts.update(i, AccountView { key: accounts[i].key, is_signer: accounts[i].is_signer, data })
    }

    /// A storage slot after `record` is written over its beginning.
    pub open spec fn overwritten(slot: Seq<u8>, record: Seq<u8>) -> Seq<u8> {
        record + slot.subrange(record.len() as int, slot.len() as int)
    }

    /// A fresh storage slot of `size` bytes, all zero, after `record` is
    /// written over its beginning.
    pub open spec fn padded(record: Seq<u8>, size: int) -> Seq<u8> {
        record + Seq::new((size - record.len()) as nat, |i: int| 0u8)
    }

    /// The contest after `contest` is stored in a slot that held `slot`, or
    /// why it cannot be stored there.
    pub open spec fn contest_written(slot: Seq<u8>, contest: ContestView) -> Result<Seq<u8>, ProcessError> {
        if !contest.encodable() || contest.encoding().len() > slot.len() {
            Err(ProcessError::AccountDataTooSmall)
        } else {
            Ok(Self::overwritten(slot, contest.encoding()))
        }
    }

    /// The words that a contest result counts for: the speed times the
    /// seconds taken, these cut to their low 32 bits, over 60; `None` where
    /// the product leaves the range of 32 bits.
    pub open spec fn contest_words(wpm: u32, time_taken: u64) -> Option<u32> {
        let seconds = time_taken % 0x1_0000_0000;
        if wpm * seconds <= u32::MAX {
            Some(((wpm * seconds) / 60) as u32)
        } else {
            None
        }
    }

    /// What `InitializePlayer` does to `accounts`, given the address that
    /// the ledger derives for the signer's player record and the ledger's
    /// time.
    pub open spec fn initialized_player(
        accounts: Seq<AccountView>,
        expected: Option<(Seq<u8>, u8)>,
        clock: Option<i64>,
    ) -> Result<Effect, ProcessError> {
        match Self::signer(accounts, 3) {
            Err(e) => Err(e),
            Ok(owner) => if !Self::is_expected(expected, accounts[1].key) {
                Err(ProcessError::Custom(TypingError::InvalidAccountData.spec_code()))
            } else if accounts[1].data.len() > 0 {
                Err(ProcessError::Custom(TypingError::PlayerAlreadyInitialized.spec_code()))
            } else {
                match clock {
                    None => Err(ProcessError::ClockUnavailable),
                    Some(now) => Ok(
                        Effect {
                            accounts: Self::with_data(accounts, 1, Player::created(owner, now).encoding()),
                            outcome: Outcome::Created { space: Player::SIZE, nonce: Some(expected.unwrap().1) },
                        },
                    ),
                }
            },
        }
    }

    /// What `CreateContest` does to `accounts`, given the ledger's time.
    pub open spec fn created_contest(
        accounts: Seq<AccountView>,
        text_id: u32,
        duration: u64,
        clock: Option<i64>,
    ) -> Result<Effect, ProcessError> {
        match Self::signer(accounts, 3) {
            Err(e) => Err(e),
            Ok(creator) => match clock {
                None => Err(ProcessError::ClockUnavailable),
                Some(now) => Ok(
                    Effect {
                        accounts: Self::with_data(
                            accounts,
                            1,
                            Self::padded(
                                ContestView::created(creator, text_id, duration, now).encoding(),
                                Contest::SIZE as int,
                            ),
                        ),
                        outcome: Outcome::Created { space: Contest::SIZE, nonce: None },
                    },
                ),
            },
        }
    }

    /// What `JoinContest` does to `accounts`, given the address that the
    /// ledger derives for the signer's player record and the ledger's time.
    /// The time is asked for only where the join starts the contest.
    pub open spec fn joined_contest(
        accounts: Seq<AccountView>,
        expected: Option<(Seq<u8>, u8)>,
        clock: Option<i64>,
    ) -> Result<Effect, ProcessError> {
        match Self::signer(accounts, 3) {
            Err(e) => Err(e),
            Ok(player) => if !Self::is_expected(expected, accounts[2].key) {
                Err(ProcessError::Custom(TypingError::InvalidAccountData.spec_code()))
            } else {
                match ContestView::stored(accounts[1].data) {
                    None => Err(ProcessError::Custom(TypingError::InvalidAccountData.spec_code())),
                    Some(contest) => match contest.join_error(player) {
                        Some(e) => Err(ProcessError::Custom(e.spec_code())),
                        None => if contest.participants.len() + 1 >= MIN_PARTICIPANTS && clock.is_none() {
                            Err(ProcessError::ClockUnavailable)
                        } else {
                            let next = match clock {
                                Some(now) => contest.after_join(player, now),
                                None => contest.with_participant(player),
                            };
                            match Self::contest_written(accounts[1].data, next) {
                                Err(e) => Err(e),
                                Ok(data) => Ok(
                                    Effect { accounts: Self::with_data(accounts, 1, data), outcome: Outcome::Updated },
                                ),
                            }
                        },
                    },
                }
            },
        }
    }

    /// What `SubmitResult` does to `accounts`, given the address that the
    /// ledger derives for the signer's player record and the ledger's time.
    pub open spec fn submitted_result(
        accounts: Seq<AccountView>,
        expected: Option<(Seq<u8>, u8)>,
        wpm: u32,
        accuracy: u32,
        time_taken: u64,
        clock: Option<i64>,
    ) -> Result<Effect, ProcessError> {
        match Self::signer(accounts, 3) {
            Err(e) => Err(e),
            Ok(player) => if !Self::is_expected(expected, accounts[2].key) {
                Err(ProcessError::Custom(TypingError::InvalidAccountData.spec_code()))
            } else {
                match ContestView::stored(accounts[1].data) {
                    None => Err(ProcessError::Custom(TypingError::InvalidAccountData.spec_code())),
                    Some(contest) => match contest.submit_error(player) {
                        Some(e) => Err(ProcessError::Custom(e.spec_code())),
                        None => match Player::stored(accounts[2].data) {
                            None => Err(ProcessError::Custom(TypingError::InvalidAccountData.spec_code())),
                            Some(stats) => match clock {
                                None => Err(ProcessError::ClockUnavailable),
                                Some(now) => match Self::contest_words(wpm, time_taken) {
                                    None => Err(ProcessError::ArithmeticOverflow),
                                    Some(words) => if !stats.can_record(words) {
                                        Err(ProcessError::ArithmeticOverflow)
                                    } else {
                                        match Self::contest_written(
                                            accounts[1].data,
                                            contest.after_submit(player, wpm, accuracy, time_taken, now),
                                        ) {
                                            Err(e) => Err(e),
                                            Ok(data) => Ok(
                                                Effect {
                                                    accounts: Self::with_data(
                                                        Self::with_data(accounts, 1, data),
                                                        2,
                                                        stats.recorded(wpm, accuracy, words, now).encoding(),
                                                    ),
                                                    outcome: Outcome::Updated,
                                                },
                                            ),
                                        }
                                    },
                                },
                            },
                        },
                    },
                }
            },
        }
    }

    /// What `UpdatePracticeStats` does to `accounts`, given the address that
    /// the ledger derives for the signer's player record and the ledger's
    /// time.
    pub open spec fn updated_practice_stats(
        accounts: Seq<AccountView>,
        expected: Option<(Seq<u8>, u8)>,
        wpm: u32,
        accuracy: u32,
        words_typed: u32,
        clock: Option<i64>,
    ) -> Result<Effect, ProcessError> {
        match Self::signer(accounts, 2) {
            Err(e) => Err(e),
            Ok(player) => if !Self::is_expected(expected, accounts[1].key) {
                Err(ProcessError::Custom(TypingError::InvalidAccountData.spec_code()))
            } else {
                match Player::stored(accounts[1].data) {
                    None => Err(ProcessError::Custom(TypingError::InvalidAccountData.spec_code())),
                    Some(stats) => match clock {
                        None => Err(ProcessError::ClockUnavailable),
                        Some(now) => if !stats.can_record(words_typed) {
                            Err(ProcessError::ArithmeticOverflow)
                        } else {
                            Ok(
                                Effect {
                                    accounts: Self::with_data(
                                        accounts,
                                        1,
                                        stats.recorded(wpm, accuracy, words_typed, now).encoding(),
                                    ),
                                    outcome: Outcome::Updated,
                                },
                            )
                        },
                    },
                }
            },
        }
    }

    /// What a command does to `accounts`: accepted, it leaves them as
    /// `Effect` says; rejected, it leaves them as they were.
    pub open spec fn agrees(
        r: Result<Outcome, ProcessError>,
        before: Seq<AccountView>,
        after: Seq<AccountView>,
        expected: Result<Effect, ProcessError>,
    ) -> bool {
        match expected {
            Ok(effect) => r == Ok::<Outcome, ProcessError>(effect.outcome) && after == effect.accounts,
            Err(e) => r == Err::<Outcome, ProcessError>(e) && after == before,
        }
    }
}

impl Processor {
    /// What `instruction` does to `accounts`, given the address that the
    /// ledger derives for the signer's player record and the ledger's time.
    pub open spec fn dispatched(
        accounts: Seq<AccountView>,
        instruction: TypingInstruction,
        expected: Option<(Seq<u8>, u8)>,
        clock: Option<i64>,
    ) -> Result<Effect, ProcessError> {
        match instruction {
            TypingInstruction::InitializePlayer => Self::initialized_player(accounts, expected, clock),
            TypingInstruction::CreateContest { text_id, duration } => Self::created_contest(
                accounts,
                text_id,
                duration,
                clock,
            ),
            TypingInstruction::JoinContest => Self::joined_contest(accounts, expected, clock),
            TypingInstruction::SubmitResult { wpm, accuracy, time_taken } => Self::submitted_result(
                accounts,
                expected,
                wpm,
                accuracy,
                time_taken,
                clock,
            ),
            TypingInstruction::UpdatePracticeStats { wpm, accuracy, words_typed } => Self::updated_practice_stats(
                accounts,
                expected,
                wpm,
                accuracy,
                words_typed,
                clock,
            ),
        }
    }

    /// What the command that `data` are the bytes of does to `accounts`
    /// within `program`, given the ledger's time: bytes of no command are
    /// rejected, and a command is carried out with the address that the
    /// ledger derives for the signer's player record.
    pub open spec fn processed(
        program: Address,
        accounts: Seq<AccountView>,
        data: Seq<u8>,
        clock: Option<i64>,
    ) -> Result<Effect, ProcessError> {
        match TypingInstruction::decoded(data) {
            None => Err(ProcessError::InvalidInstructionData),
            Some(instruction) => Self::dispatched(
                accounts,
                instruction,
                Self::player_address(program, accounts),
                clock,
            ),
        }
    }

    /// What a command writes into a contest's slot keeps the slot's length
    /// and is read back as the contest written.
    pub proof fn lemma_contest_written(slot: Seq<u8>, contest: ContestView)
        requires
            Self::contest_written(slot, contest).is_ok(),
        ensures
            Self::contest_written(slot, contest).unwrap().len() == slot.len(),
            ContestView::stored(Self::contest_written(slot, contest).unwrap()) == Some(contest),
    {
        contest.lemma_round_trip(slot.subrange(contest.encoding().len() as int, slot.len() as int));
    }

    /// What `CreateContest` writes into the new slot fills it and is read
    /// back as the contest made.
    pub proof fn lemma_contest_created(creator: Address, text_id: u32, duration: u64, now: i64)
        ensures
            Self::padded(
                ContestView::created(creator, text_id, duration, now).encoding(),
                Contest::SIZE as int,
            ).len() == Contest::SIZE,
            ContestView::stored(
                Self::padded(ContestView::created(creator, text_id, duration, now).encoding(), Contest::SIZE as int),
            ) == Some(ContestView::created(creator, text_id, duration, now)),
    {
        let contest = ContestView::created(creator, text_id, duration, now);
        contest.lemma_encoding_len();
        crate::wire::lemma_option_i64_bytes(None);
        contest.lemma_round_trip(Seq::new((Contest::SIZE - contest.encoding().len()) as nat, |i: int| 0u8));
    }

    /// A player is initialized once: on the accounts that an accepted
    /// `InitializePlayer` leaves, another one is rejected as already
    /// initialized, whatever the time.
    pub proof fn lemma_initialized_once(
        accounts: Seq<AccountView>,
        expected: Option<(Seq<u8>, u8)>,
        first: Option<i64>,
        second: Option<i64>,
    )
        requires
            Self::initialized_player(accounts, expected, first).is_ok(),
        ensures
            Self::initialized_player(
                Self::initialized_player(accounts, expected, first).unwrap().accounts,
                expected,
                second,
            ) == Err::<Effect, ProcessError>(
                ProcessError::Custom(TypingError::PlayerAlreadyInitialized.spec_code()),
            ),
    {
        Player::created(accounts[0].key, first.unwrap()).lemma_encoding_len();
    }

    /// An accepted `JoinContest` on a slot that holds a well-formed contest
    /// leaves a well-formed contest there, which follows the one it found.
    pub proof fn lemma_joined_contest_wf(
        accounts: Seq<AccountView>,
        expected: Option<(Seq<u8>, u8)>,
        clock: Option<i64>,
    )
        requires
            Self::joined_contest(accounts, expected, clock).is_ok(),
            ContestView::stored(accounts[1].data).unwrap().wf(),
        ensures
            ContestView::stored(Self::joined_contest(accounts, expected, clock).unwrap().accounts[1].data).is_some(),
            ContestView::stored(
                Self::joined_contest(accounts, expected, clock).unwrap().accounts[1].data,
            ).unwrap().wf(),
            ContestView::stored(accounts[1].data).unwrap().precedes(
                ContestView::stored(
                    Self::joined_contest(accounts, expected, clock).unwrap().accounts[1].data,
                ).unwrap(),
            ),
    {
        let contest = ContestView::stored(accounts[1].data).unwrap();
        let player = accounts[0].key;
        let next = match clock {
            Some(now) => contest.after_join(player, now),
            None => contest.with_participant(player),
        };
        contest.lemma_with_participant_wf(player);
        match clock {
            Some(now) => {
                contest.lemma_step(crate::laws::contests::ContestEvent::Join { player, now });
            },
            None => {
                contest.lemma_step(crate::laws::contests::ContestEvent::AddParticipant { player });
            },
        }
        Self::lemma_contest_written(accounts[1].data, next);
    }

    /// An accepted `SubmitResult` on a slot that holds a well-formed contest
    /// leaves a well-formed contest there, which follows the one it found.
    pub proof fn lemma_submitted_result_wf(
        accounts: Seq<AccountView>,
        expected: Option<(Seq<u8>, u8)>,
        wpm: u32,
        accuracy: u32,
        time_taken: u64,
        clock: Option<i64>,
    )
        requires
            Self::submitted_result(accounts, expected, wpm, accuracy, time_taken, clock).is_ok(),
            ContestView::stored(accounts[1].data).unwrap().wf(),
        ensures
            ContestView::stored(
                Self::submitted_result(accounts, expected, wpm, accuracy, time_taken, clock).unwrap().accounts[1].data,
            ).is_some(),
            ContestView::stored(
                Self::submitted_result(accounts, expected, wpm, accuracy, time_taken, clock).unwrap().accounts[1].data,
            ).unwrap().wf(),
            ContestView::stored(accounts[1].data).unwrap().precedes(
                ContestView::stored(
                    Self::submitted_result(
                        accounts,
                        expected,
                        wpm,
                        accuracy,
                        time_taken,
                        clock,
                    ).unwrap().accounts[1].data,
                ).unwrap(),
            ),
    {
        let contest = ContestView::stored(accounts[1].data).unwrap();
        let player = accounts[0].key;
        let now = clock.unwrap();
        contest.lemma_step(crate::laws::contests::ContestEvent::Submit { player, wpm, accuracy, time_taken, now });
        Self::lemma_contest_written(accounts[1].data, contest.after_submit(player, wpm, accuracy, time_taken, now));
    }
}

} // verus!
