//! The dispatcher: for each command, the checks on the accounts it is sent
//! with, the state transition, and the records written back.

pub mod model;

use vstd::prelude::*;
use crate::address::Address;
use crate::error::{ProcessError, TypingError};
use crate::instruction::TypingInstruction;
use crate::state::contest::{Contest, MIN_PARTICIPANTS};
use crate::state::player::Player;

verus! {

/// The namespace under which player records are addressed: the bytes of the
/// word "player".
pub const PLAYER_TAG: [u8; 6] = [112, 108, 97, 121, 101, 114];

/// An account as a command sees it: its address, whether its key signed the
/// request, and the bytes it stores.
#[derive(Clone, Debug, PartialEq, Eq)]
pub struct Account {
    pub key: Address,
    pub is_signer: bool,
    pub data: Vec<u8>,
}

/// An account as a mathematical value.
pub struct AccountView {
    pub key: Address,
    pub is_signer: bool,
    pub data: Seq<u8>,
}

impl View for Account {
    type V = AccountView;

    open spec fn view(&self) -> AccountView {
        AccountView { key: self.key, is_signer: self.is_signer, data: self.data@ }
    }
}

/// The accounts of a request as mathematical values, in their order.
pub open spec fn ledger(accounts: Seq<Account>) -> Seq<AccountView> {
    Seq::new(accounts.len(), |i: int| accounts[i]@)
}

/// What an accepted command asks of the host beyond keeping the bytes that
/// the accounts now hold.
#[derive(Clone, Copy, Debug, PartialEq, Eq)]
pub enum Outcome {
    /// The records written existed before; nothing more is asked.
    Updated,
    /// The record in the second account is new. The host allocates `space`
    /// bytes for it, owned by the program; where the record's address is a
    /// derived one, `nonce` completes the seeds that sign for it.
    Created { space: usize, nonce: Option<u8> },
}

/// What an accepted command leaves behind: the accounts, and what it asks of
/// the host.
pub struct Effect {
    pub accounts: Seq<AccountView>,
    pub outcome: Outcome,
}

/// The commands' entry points.
pub struct Processor;

impl Processor {
    /// The key of the first account, where `needed` accounts are there and
    /// the first has signed.
    fn check_signer(accounts: &Vec<Account>, needed: usize) -> (r: Result<Address, ProcessError>)
        requires
            needed >= 1,
        ensures
            r == Self::signer(ledger(accounts@), needed as int),
    {
        if accounts.len() < needed {
            return Err(ProcessError::NotEnoughAccountKeys);
        }
        if !accounts[0].is_signer {
            return Err(ProcessError::MissingRequiredSignature);
        }
        Ok(accounts[0].key)
    }

    /// The nonce of the derivation, where it yielded the address `key`.
    fn nonce_for(expected: &Option<(Address, u8)>, key: &Address) -> (r: Option<u8>)
        ensures
            r.is_some() == Self::is_expected(Self::lift(*expected), *key),
            r.is_some() ==> r.unwrap() == Self::lift(*expected).unwrap().1,
    {
        match expected {
            Some((address, nonce)) => if address.same(key) {
                Some(*nonce)
            } else {
                None
            },
            None => None,
        }
    }

    /// Replaces the bytes of the account at `i`.
    fn set_data(accounts: &mut Vec<Account>, i: usize, data: Vec<u8>)
        requires
            i < old(accounts).len(),
        ensures
            ledger(final(accounts)@) == Self::with_data(ledger(old(accounts)@), i as int, data@),
            final(accounts)@.len() == old(accounts)@.len(),
    {
        let key = accounts[i].key;
        let is_signer = accounts[i].is_signer;
        accounts.set(i, Account { key, is_signer, data });
        assert(ledger(accounts@) =~= Self::with_data(ledger(old(accounts)@), i as int, data@));
    }

    /// The bytes of `slot` with `record` written over their beginning.
    fn overwrite(slot: &Vec<u8>, record: Vec<u8>) -> (r: Vec<u8>)
        requires
            record.len() <= slot.len(),
        ensures
            r@ == Self::overwritten(slot@, record@),
    {
        let mut out = record;
        let mut i: usize = out.len();
        assert(out@ =~= record@ + slot@.subrange(record@.len() as int, i as int));
        while i < slot.len()
            invariant
                record.len() <= i <= slot.len(),
                out@ == record@ + slot@.subrange(record@.len() as int, i as int),
            decreases slot.len() - i,
        {
            out.push(slot[i]);
            assert(out@ =~= record@ + slot@.subrange(record@.len() as int, i + 1));
            i += 1;
        }
        out
    }

    /// `record` followed by zero bytes up to `size` bytes in all.
    fn pad(record: Vec<u8>, size: usize) -> (r: Vec<u8>)
        requires
            record.len() <= size,
        ensures
            r@ == Self::padded(record@, size as int),
    {
        let mut out = record;
        let mut i: usize = out.len();
        assert(out@ =~= record@ + Seq::new((i - record@.len()) as nat, |k: int| 0u8));
        while i < size
            invariant
                record.len() <= i <= size,
                out@ == record@ + Seq::new((i - record@.len()) as nat, |k: int| 0u8),
            decreases size - i,
        {
            out.push(0u8);
            assert(out@ =~= record@ + Seq::new((i + 1 - record@.len()) as nat, |k: int| 0u8));
            i += 1;
        }
        out
    }

    /// The bytes of `slot` once `contest` is stored there, or why it cannot
    /// be.
    fn write_contest(slot: &Vec<u8>, contest: &Contest) -> (r: Result<Vec<u8>, ProcessError>)
        ensures
            match r {
                Ok(data) => Self::contest_written(slot@, contest@) == Ok::<Seq<u8>, ProcessError>(data@),
                Err(e) => Self::contest_written(slot@, contest@) == Err::<Seq<u8>, ProcessError>(e),
            },
    {
        match contest.to_bytes() {
            None => Err(ProcessError::AccountDataTooSmall),
            Some(record) => if record.len() > slot.len() {
                Err(ProcessError::AccountDataTooSmall)
            } else {
                Ok(Self::overwrite(slot, record))
            },
        }
    }

    /// The words that a contest result counts for.
    pub fn words_for(wpm: u32, time_taken: u64) -> (r: Option<u32>)
        ensures
            r == Self::contest_words(wpm, time_taken),
    {
        let seconds: u64 = time_taken % 0x1_0000_0000;
        assert((wpm as u64) * seconds <= 0xffff_ffff * 0xffff_ffff) by (nonlinear_arith)
            requires
                0 <= wpm <= 0xffff_ffff,
                0 <= seconds <= 0xffff_ffff,
        ;
        let product: u64 = (wpm as u64) * seconds;
        if product <= 0xffff_ffff {
            Some((product / 60) as u32)
        } else {
            None
        }
    }

    /// The address derived for the player record of the first account.
    fn expected_player_address(program_id: &Address, accounts: &Vec<Account>) -> (r: Option<(Address, u8)>)
        ensures
            Self::lift(r) == Self::player_address(*program_id, ledger(accounts@)),
    {
        if accounts.len() > 0 {
            let tag = PLAYER_TAG;
            crate::address::derive(tag.as_slice(), &accounts[0].key, program_id)
        } else {
            None
        }
    }
}

impl Processor {
    /// Carries out `InitializePlayer` on the accounts signer, player record,
    /// system program, given the derivation `expected` for the signer's
    /// player record. Rejected where an account is missing, the first did
    /// not sign, the record is not at the derived address, the record holds
    /// bytes already, or the ledger's time is not at hand, in this order.
    /// Accepted, it writes a zeroed player stamped with the time into the
    /// record and asks the host to allocate it.
    pub fn initialize_player(accounts: &mut Vec<Account>, expected: Option<(Address, u8)>, clock: Option<i64>) -> (r:
        Result<Outcome, ProcessError>)
        ensures
            Self::agrees(
                r,
                ledger(old(accounts)@),
                ledger(final(accounts)@),
                Self::initialized_player(ledger(old(accounts)@), Self::lift(expected), clock),
            ),
    {
        let owner = match Self::check_signer(accounts, 3) {
            Ok(key) => key,
            Err(e) => {
                return Err(e);
            },
        };
        let nonce = match Self::nonce_for(&expected, &accounts[1].key) {
            Some(nonce) => nonce,
            None => {
                return Err(ProcessError::from(TypingError::InvalidAccountData));
            },
        };
        if accounts[1].data.len() > 0 {
            return Err(ProcessError::from(TypingError::PlayerAlreadyInitialized));
        }
        let now = match clock {
            Some(now) => now,
            None => {
                return Err(ProcessError::ClockUnavailable);
            },
        };
        let player = Player::new(owner, now);
        Self::set_data(accounts, 1, player.to_bytes());
        Ok(Outcome::Created { space: Player::SIZE, nonce: Some(nonce) })
    }

    /// Carries out `InitializePlayer` with the address that the ledger
    /// derives for the signer's player record within `program_id`, at the
    /// ledger's time: what `initialize_player` does with these, whatever the
    /// time read.
    pub fn process_initialize_player(program_id: &Address, accounts: &mut Vec<Account>) -> (r: Result<
        Outcome,
        ProcessError,
    >)
        ensures
            exists|clock: Option<i64>|
                Self::agrees(
                    r,
                    ledger(old(accounts)@),
                    ledger(final(accounts)@),
                    #[trigger] Self::initialized_player(
                        ledger(old(accounts)@),
                        Self::player_address(*program_id, ledger(old(accounts)@)),
                        clock,
                    ),
                ),
            r.is_err() ==> ledger(final(accounts)@) == ledger(old(accounts)@),
    {
        let expected = Self::expected_player_address(program_id, accounts);
        let clock = ledger_time();
        Self::initialize_player(accounts, expected, clock)
    }

    /// Carries out `CreateContest` on the accounts signer, contest record,
    /// system program. Rejected where an account is missing, the first did
    /// not sign, or the ledger's time is not at hand, in this order.
    /// Accepted, it writes a waiting contest made at that time into the
    /// record, zeros behind it up to the size of a contest's slot, and asks
    /// the host to allocate the slot.
    pub fn create_contest(accounts: &mut Vec<Account>, text_id: u32, duration: u64, clock: Option<i64>) -> (r:
        Result<Outcome, ProcessError>)
        ensures
            Self::agrees(
                r,
                ledger(old(accounts)@),
                ledger(final(accounts)@),
                Self::created_contest(ledger(old(accounts)@), text_id, duration, clock),
            ),
    {
        let creator = match Self::check_signer(accounts, 3) {
            Ok(key) => key,
            Err(e) => {
                return Err(e);
            },
        };
        let now = match clock {
            Some(now) => now,
            None => {
                return Err(ProcessError::ClockUnavailable);
            },
        };
        let contest = Contest::new(creator, text_id, duration, now);
        proof {
            contest@.lemma_encoding_len();
            crate::wire::lemma_option_i64_bytes(None);
        }
        match contest.to_bytes() {
            Some(record) => {
                Self::set_data(accounts, 1, Self::pad(record, Contest::SIZE));
                Ok(Outcome::Created { space: Contest::SIZE, nonce: None })
            },
            None => Err(ProcessError::AccountDataTooSmall),
        }
    }

    /// Carries out `CreateContest` at the ledger's time: what
    /// `create_contest` does with it, whatever the time read.
    pub fn process_create_contest(program_id: &Address, accounts: &mut Vec<Account>, text_id: u32, duration: u64) -> (r:
        Result<Outcome, ProcessError>)
        ensures
            exists|clock: Option<i64>|
                Self::agrees(
                    r,
                    ledger(old(accounts)@),
                    ledger(final(accounts)@),
                    #[trigger] Self::created_contest(ledger(old(accounts)@), text_id, duration, clock),
                ),
            r.is_err() ==> ledger(final(accounts)@) == ledger(old(accounts)@),
    {
        let clock = ledger_time();
        Self::create_contest(accounts, text_id, duration, clock)
    }

    /// Carries out `JoinContest` on the accounts signer, contest record,
    /// player record, given the derivation `expected` for the signer's
    /// player record. Rejected where an account is missing, the first did
    /// not sign, the player record is not at the derived address, the
    /// contest record holds no contest, the contest does not let the signer
    /// join, the join would start the contest and the ledger's time is not
    /// at hand, or the contest no longer fits its slot, in this order.
    /// Accepted, it writes the contest after the join over the beginning of
    /// the contest record.
    pub fn join_contest(accounts: &mut Vec<Account>, expected: Option<(Address, u8)>, clock: Option<i64>) -> (r:
        Result<Outcome, ProcessError>)
        ensures
            Self::agrees(
                r,
                ledger(old(accounts)@),
                ledger(final(accounts)@),
                Self::joined_contest(ledger(old(accounts)@), Self::lift(expected), clock),
            ),
    {
        let player = match Self::check_signer(accounts, 3) {
            Ok(key) => key,
            Err(e) => {
                return Err(e);
            },
        };
        if Self::nonce_for(&expected, &accounts[2].key).is_none() {
            return Err(ProcessError::from(TypingError::InvalidAccountData));
        }
        let mut contest = match Contest::try_from_slice(accounts[1].data.as_slice()) {
            Some(contest) => contest,
            None => {
                return Err(ProcessError::from(TypingError::InvalidAccountData));
            },
        };
        let ghost before = contest@;
        match contest.enroll(player) {
            Ok(()) => {},
            Err(e) => {
                return Err(ProcessError::from(e));
            },
        }
        if contest.participants.len() >= MIN_PARTICIPANTS {
            match clock {
                Some(now) => {
                    contest.start_contest(now);
                },
                None => {
                    return Err(ProcessError::ClockUnavailable);
                },
            }
        }
        assert(contest@ == match clock {
            Some(now) => before.after_join(player, now),
            None => before.with_participant(player),
        });
        match Self::write_contest(&accounts[1].data, &contest) {
            Ok(data) => {
                Self::set_data(accounts, 1, data);
                Ok(Outcome::Updated)
            },
            Err(e) => Err(e),
        }
    }

    /// Carries out `JoinContest` with the address that the ledger derives
    /// for the signer's player record within `program_id`, at the ledger's
    /// time: what `join_contest` does with these, whatever the time read.
    pub fn process_join_contest(program_id: &Address, accounts: &mut Vec<Account>) -> (r: Result<
        Outcome,
        ProcessError,
    >)
        ensures
            exists|clock: Option<i64>|
                Self::agrees(
                    r,
                    ledger(old(accounts)@),
                    ledger(final(accounts)@),
                    #[trigger] Self::joined_contest(
                        ledger(old(accounts)@),
                        Self::player_address(*program_id, ledger(old(accounts)@)),
                        clock,
                    ),
                ),
            r.is_err() ==> ledger(final(accounts)@) == ledger(old(accounts)@),
    {
        let expected = Self::expected_player_address(program_id, accounts);
        let clock = ledger_time();
        Self::join_contest(accounts, expected, clock)
    }

    /// Carries out `SubmitResult` on the accounts signer, contest record,
    /// player record, given the derivation `expected` for the signer's
    /// player record. Rejected where an account is missing, the first did
    /// not sign, the player record is not at the derived address, the
    /// contest record holds no contest, the contest does not take a result
    /// of the signer, the player record holds no player, the ledger's time
    /// is not at hand, the words of the result or the player's counters
    /// leave their range, or the contest no longer fits its slot, in this
    /// order. Accepted, it writes the contest after the submission over the
    /// beginning of the contest record and the player after the attempt
    /// into the player record.
    pub fn submit_result(
        accounts: &mut Vec<Account>,
        expected: Option<(Address, u8)>,
        wpm: u32,
        accuracy: u32,
        time_taken: u64,
        clock: Option<i64>,
    ) -> (r: Result<Outcome, ProcessError>)
        ensures
            Self::agrees(
                r,
                ledger(old(accounts)@),
                ledger(final(accounts)@),
                Self::submitted_result(
                    ledger(old(accounts)@),
                    Self::lift(expected),
                    wpm,
                    accuracy,
                    time_taken,
                    clock,
                ),
            ),
    {
        let player = match Self::check_signer(accounts, 3) {
            Ok(key) => key,
            Err(e) => {
                return Err(e);
            },
        };
        if Self::nonce_for(&expected, &accounts[2].key).is_none() {
            return Err(ProcessError::from(TypingError::InvalidAccountData));
        }
        let mut contest = match Contest::try_from_slice(accounts[1].data.as_slice()) {
            Some(contest) => contest,
            None => {
                return Err(ProcessError::from(TypingError::InvalidAccountData));
            },
        };
        let ghost before = contest@;
        match contest.append_result(player, wpm, accuracy, time_taken) {
            Ok(()) => {},
            Err(e) => {
                return Err(ProcessError::from(e));
            },
        }
        let mut stats = match Player::try_from_slice(accounts[2].data.as_slice()) {
            Some(stats) => stats,
            None => {
                return Err(ProcessError::from(TypingError::InvalidAccountData));
            },
        };
        let now = match clock {
            Some(now) => now,
            None => {
                return Err(ProcessError::ClockUnavailable);
            },
        };
        let words = match Self::words_for(wpm, time_taken) {
            Some(words) => words,
            None => {
                return Err(ProcessError::ArithmeticOverflow);
            },
        };
        if !stats.has_room_for(words) {
            return Err(ProcessError::ArithmeticOverflow);
        }
        stats.update_practice_stats(wpm, accuracy, words, now);
        if contest.results.len() == contest.participants.len() {
            contest.end_contest(now);
        }
        assert(contest@ == before.after_submit(player, wpm, accuracy, time_taken, now));
        match Self::write_contest(&accounts[1].data, &contest) {
            Ok(data) => {
                Self::set_data(accounts, 1, data);
                Self::set_data(accounts, 2, stats.to_bytes());
                Ok(Outcome::Updated)
            },
            Err(e) => Err(e),
        }
    }

    /// Carries out `SubmitResult` with the address that the ledger derives
    /// for the signer's player record within `program_id`, at the ledger's
    /// time: what `submit_result` does with these, whatever the time read.
    pub fn process_submit_result(
        program_id: &Address,
        accounts: &mut Vec<Account>,
        wpm: u32,
        accuracy: u32,
        time_taken: u64,
    ) -> (r: Result<Outcome, ProcessError>)
        ensures
            exists|clock: Option<i64>|
                Self::agrees(
                    r,
                    ledger(old(accounts)@),
                    ledger(final(accounts)@),
                    #[trigger] Self::submitted_result(
                        ledger(old(accounts)@),
                        Self::player_address(*program_id, ledger(old(accounts)@)),
                        wpm,
                        accuracy,
                        time_taken,
                        clock,
                    ),
                ),
            r.is_err() ==> ledger(final(accounts)@) == ledger(old(accounts)@),
    {
        let expected = Self::expected_player_address(program_id, accounts);
        let clock = ledger_time();
        Self::submit_result(accounts, expected, wpm, accuracy, time_taken, clock)
    }

    /// Carries out `UpdatePracticeStats` on the accounts signer, player
    /// record, given the derivation `expected` for the signer's player
    /// record. Rejected where an account is missing, the first did not sign,
    /// the player record is not at the derived address, the record holds no
    /// player, the ledger's time is not at hand, or the player's counters
    /// would leave their range, in this order. Accepted, it writes the
    /// player after the attempt into the record.
    pub fn update_practice_stats(
        accounts: &mut Vec<Account>,
        expected: Option<(Address, u8)>,
        wpm: u32,
        accuracy: u32,
        words_typed: u32,
        clock: Option<i64>,
    ) -> (r: Result<Outcome, ProcessError>)
        ensures
            Self::agrees(
                r,
                ledger(old(accounts)@),
                ledger(final(accounts)@),
                Self::updated_practice_stats(
                    ledger(old(accounts)@),
                    Self::lift(expected),
                    wpm,
                    accuracy,
                    words_typed,
                    clock,
                ),
            ),
    {
        let _ = match Self::check_signer(accounts, 2) {
            Ok(key) => key,
            Err(e) => {
                return Err(e);
            },
        };
        if Self::nonce_for(&expected, &accounts[1].key).is_none() {
            return Err(ProcessError::from(TypingError::InvalidAccountData));
        }
        let mut stats = match Player::try_from_slice(accounts[1].data.as_slice()) {
            Some(stats) => stats,
            None => {
                return Err(ProcessError::from(TypingError::InvalidAccountData));
            },
        };
        let now = match clock {
            Some(now) => now,
            None => {
                return Err(ProcessError::ClockUnavailable);
            },
        };
        if !stats.has_room_for(words_typed) {
            return Err(ProcessError::ArithmeticOverflow);
        }
        stats.update_practice_stats(wpm, accuracy, words_typed, now);
        Self::set_data(accounts, 1, stats.to_bytes());
        Ok(Outcome::Updated)
    }

    /// Carries out `UpdatePracticeStats` with the address that the ledger
    /// derives for the signer's player record within `program_id`, at the
    /// ledger's time: what `update_practice_stats` does with these, whatever
    /// the time read.
    pub fn process_update_practice_stats(
        program_id: &Address,
        accounts: &mut Vec<Account>,
        wpm: u32,
        accuracy: u32,
        words_typed: u32,
    ) -> (r: Result<Outcome, ProcessError>)
        ensures
            exists|clock: Option<i64>|
                Self::agrees(
                    r,
                    ledger(old(accounts)@),
                    ledger(final(accounts)@),
                    #[trigger] Self::updated_practice_stats(
                        ledger(old(accounts)@),
                        Self::player_address(*program_id, ledger(old(accounts)@)),
                        wpm,
                        accuracy,
                        words_typed,
                        clock,
                    ),
                ),
            r.is_err() ==> ledger(final(accounts)@) == ledger(old(accounts)@),
    {
        let expected = Self::expected_player_address(program_id, accounts);
        let clock = ledger_time();
        Self::update_practice_stats(accounts, expected, wpm, accuracy, words_typed, clock)
    }

    /// Carries out `instruction` on `accounts`, given the derivation
    /// `expected` for the signer's player record and the ledger's time
    /// `clock` where the host has it. A rejected command leaves every
    /// account as it was.
    pub fn dispatch(
        accounts: &mut Vec<Account>,
        instruction: &TypingInstruction,
        expected: Option<(Address, u8)>,
        clock: Option<i64>,
    ) -> (r: Result<Outcome, ProcessError>)
        ensures
            Self::agrees(
                r,
                ledger(old(accounts)@),
                ledger(final(accounts)@),
                Self::dispatched(ledger(old(accounts)@), *instruction, Self::lift(expected), clock),
            ),
            r.is_err() ==> ledger(final(accounts)@) == ledger(old(accounts)@),
    {
        match instruction {
            TypingInstruction::InitializePlayer => Self::initialize_player(accounts, expected, clock),
            TypingInstruction::CreateContest { text_id, duration } => Self::create_contest(
                accounts,
                *text_id,
                *duration,
                clock,
            ),
            TypingInstruction::JoinContest => Self::join_contest(accounts, expected, clock),
            TypingInstruction::SubmitResult { wpm, accuracy, time_taken } => Self::submit_result(
                accounts,
                expected,
                *wpm,
                *accuracy,
                *time_taken,
                clock,
            ),
            TypingInstruction::UpdatePracticeStats { wpm, accuracy, words_typed } => Self::update_practice_stats(
                accounts,
                expected,
                *wpm,
                *accuracy,
                *words_typed,
                clock,
            ),
        }
    }

    /// Carries out the command that `instruction_data` are the bytes of, on
    /// `accounts`, within the program `program_id`, at the ledger's time
    /// `clock` where the host has it: what `dispatch` does with the command
    /// and the address that the ledger derives for the signer's player
    /// record. Bytes of no command are rejected as invalid instruction data.
    /// A rejected command leaves every account as it was.
    pub fn process_at(
        program_id: &Address,
        accounts: &mut Vec<Account>,
        instruction_data: &[u8],
        clock: Option<i64>,
    ) -> (r: Result<Outcome, ProcessError>)
        ensures
            Self::agrees(
                r,
                ledger(old(accounts)@),
                ledger(final(accounts)@),
                Self::processed(*program_id, ledger(old(accounts)@), instruction_data@, clock),
            ),
            r.is_err() ==> ledger(final(accounts)@) == ledger(old(accounts)@),
    {
        let instruction = match TypingInstruction::unpack(instruction_data) {
            Ok(instruction) => instruction,
            Err(e) => {
                return Err(e);
            },
        };
        let expected = Self::expected_player_address(program_id, accounts);
        Self::dispatch(accounts, &instruction, expected, clock)
    }

    /// Carries out the command that `instruction_data` are the bytes of, on
    /// `accounts`, within the program `program_id`, at the ledger's time:
    /// what `process_at` does, whatever the time read.
    pub fn process(program_id: &Address, accounts: &mut Vec<Account>, instruction_data: &[u8]) -> (r: Result<
        Outcome,
        ProcessError,
    >)
        ensures
            exists|clock: Option<i64>|
                Self::agrees(
                    r,
                    ledger(old(accounts)@),
                    ledger(final(accounts)@),
                    #[trigger] Self::processed(*program_id, ledger(old(accounts)@), instruction_data@, clock),
                ),
            r.is_err() ==> ledger(final(accounts)@) == ledger(old(accounts)@),
    {
        let clock = ledger_time();
        Self::process_at(program_id, accounts, instruction_data, clock)
    }
}

/// The ledger's time, in seconds since the epoch, where the host supplies
/// it. Reads the clock sysvar with `solana_program::sysvar::Sysvar::get` on
/// `solana_program::clock::Clock`. Nothing is claimed of the time read: it
/// may differ from call to call, and be missing.
#[verifier::external_body]
fn ledger_time() -> Option<i64> {
    match <solana_program::clock::Clock as solana_program::sysvar::Sysvar>::get() {
        Ok(clock) => Some(clock.unix_timestamp),
        Err(_) => None,
    }
}

} // verus!
