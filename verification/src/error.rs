//! The reasons for which a request is rejected.

use vstd::prelude::*;

verus! {

/// A rejection decided by the contest program itself.
#[derive(Clone, Copy, Debug, PartialEq, Eq, Structural)]
pub enum TypingError {
    InvalidInstruction,
    PlayerAlreadyInitialized,
    ContestNotFound,
    ContestFull,
    ContestEnded,
    PlayerNotInContest,
    ContestNotActive,
    InsufficientBalance,
    InvalidAccountData,
    Unauthorized,
    AlreadyJoined,
    ResultAlreadySubmitted,
}

impl TypingError {
    /// The number under which the ledger reports this rejection: the
    /// variant's position in the declaration, counted from zero.
    pub open spec fn spec_code(self) -> u32 {
        match self {
            TypingError::InvalidInstruction => 0,
            TypingError::PlayerAlreadyInitialized => 1,
            TypingError::ContestNotFound => 2,
            TypingError::ContestFull => 3,
            TypingError::ContestEnded => 4,
            TypingError::PlayerNotInContest => 5,
            TypingError::ContestNotActive => 6,
            TypingError::InsufficientBalance => 7,
            TypingError::InvalidAccountData => 8,
            TypingError::Unauthorized => 9,
            TypingError::AlreadyJoined => 10,
            TypingError::ResultAlreadySubmitted => 11,
        }
    }

    /// The number under which the ledger reports this rejection.
    #[verifier::when_used_as_spec(spec_code)]
    pub fn code(self) -> (n: u32)
        ensures
            n == self.spec_code(),
    {
        match self {
            TypingError::InvalidInstruction => 0,
            TypingError::PlayerAlreadyInitialized => 1,
            TypingError::ContestNotFound => 2,
            TypingError::ContestFull => 3,
            TypingError::ContestEnded => 4,
            TypingError::PlayerNotInContest => 5,
            TypingError::ContestNotActive => 6,
            TypingError::InsufficientBalance => 7,
            TypingError::InvalidAccountData => 8,
            TypingError::Unauthorized => 9,
            TypingError::AlreadyJoined => 10,
            TypingError::ResultAlreadySubmitted => 11,
        }
    }

    /// The sentence that describes this rejection.
    pub open spec fn spec_message(self) -> Seq<char> {
        match self {
            TypingError::InvalidInstruction => "Invalid instruction"@,
            TypingError::PlayerAlreadyInitialized => "Player already initialized"@,
            TypingError::ContestNotFound => "Contest not found"@,
            TypingError::ContestFull => "Contest is full"@,
            TypingError::ContestEnded => "Contest has already ended"@,
            TypingError::PlayerNotInContest => "Player not in contest"@,
            TypingError::ContestNotActive => "Contest not active"@,
            TypingError::InsufficientBalance => "Insufficient account balance"@,
            TypingError::InvalidAccountData => "Invalid account data"@,
            TypingError::Unauthorized => "Unauthorized"@,
            TypingError::AlreadyJoined => "Player already in contest"@,
            TypingError::ResultAlreadySubmitted => "Result already submitted"@,
        }
    }

    /// The sentence that describes this rejection.
    pub fn message(self) -> (text: &'static str)
        ensures
            text@ == self.spec_message(),
    {
        match self {
            TypingError::InvalidInstruction => "Invalid instruction",
            TypingError::PlayerAlreadyInitialized => "Player already initialized",
            TypingError::ContestNotFound => "Contest not found",
            TypingError::ContestFull => "Contest is full",
            TypingError::ContestEnded => "Contest has already ended",
            TypingError::PlayerNotInContest => "Player not in contest",
            TypingError::ContestNotActive => "Contest not active",
            TypingError::InsufficientBalance => "Insufficient account balance",
            TypingError::InvalidAccountData => "Invalid account data",
            TypingError::Unauthorized => "Unauthorized",
            TypingError::AlreadyJoined => "Player already in contest",
            TypingError::ResultAlreadySubmitted => "Result already submitted",
        }
    }

    /// Distinct rejections are reported under distinct numbers.
    pub proof fn lemma_code_injective(a: TypingError, b: TypingError)
        requires
            a.spec_code() == b.spec_code(),
        ensures
            a == b,
    {
    }
}

/// A rejection as the ledger sees it: one of the host's own kinds, or a
/// rejection of the contest program under its number.
#[derive(Clone, Copy, Debug, PartialEq, Eq, Structural)]
pub enum ProcessError {
    /// Fewer account handles were supplied than the command needs.
    NotEnoughAccountKeys,
    /// The acting identity did not sign the request.
    MissingRequiredSignature,
    /// The command's bytes are no encoding of a command.
    InvalidInstructionData,
    /// The command needs the ledger's time and the host supplied none.
    ClockUnavailable,
    /// The record's storage slot is too short for the record.
    AccountDataTooSmall,
    /// A statistic has reached the largest value its field can hold.
    ArithmeticOverflow,
    /// A rejection of the contest program, by number.
    Custom(u32),
}

impl From<TypingError> for ProcessError {
    fn from(e: TypingError) -> (r: ProcessError) {
        ProcessError::Custom(e.code())
    }
}

impl vstd::std_specs::convert::FromSpecImpl<TypingError> for ProcessError {
    open spec fn obeys_from_spec() -> bool {
        true
    }

    open spec fn from_spec(e: TypingError) -> ProcessError {
        ProcessError::Custom(e.spec_code())
    }
}

} // verus!
