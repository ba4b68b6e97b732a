use typing_contest::error::{ProcessError, TypingError};

const ALL: [TypingError; 12] = [
    TypingError::InvalidInstruction,
    TypingError::PlayerAlreadyInitialized,
    TypingError::ContestNotFound,
    TypingError::ContestFull,
    TypingError::ContestEnded,
    TypingError::PlayerNotInContest,
    TypingError::ContestNotActive,
    TypingError::InsufficientBalance,
    TypingError::InvalidAccountData,
    TypingError::Unauthorized,
    TypingError::AlreadyJoined,
    TypingError::ResultAlreadySubmitted,
];

#[test]
fn errors_are_numbered_in_their_order() {
    for (i, e) in ALL.iter().enumerate() {
        assert_eq!(e.code(), i as u32);
        assert_eq!(ProcessError::from(*e), ProcessError::Custom(i as u32));
    }
    assert_eq!(TypingError::ContestFull.code(), 3);
    assert_eq!(TypingError::InvalidAccountData.code(), 8);
}

#[test]
fn errors_have_their_sentences() {
    assert_eq!(TypingError::InvalidInstruction.message(), "Invalid instruction");
    assert_eq!(TypingError::PlayerAlreadyInitialized.message(), "Player already initialized");
    assert_eq!(TypingError::ContestNotFound.message(), "Contest not found");
    assert_eq!(TypingError::ContestFull.message(), "Contest is full");
    assert_eq!(TypingError::ContestEnded.message(), "Contest has already ended");
    assert_eq!(TypingError::PlayerNotInContest.message(), "Player not in contest");
    assert_eq!(TypingError::ContestNotActive.message(), "Contest not active");
    assert_eq!(TypingError::InsufficientBalance.message(), "Insufficient account balance");
    assert_eq!(TypingError::InvalidAccountData.message(), "Invalid account data");
    assert_eq!(TypingError::Unauthorized.message(), "Unauthorized");
    assert_eq!(TypingError::AlreadyJoined.message(), "Player already in contest");
    assert_eq!(TypingError::ResultAlreadySubmitted.message(), "Result already submitted");
}
