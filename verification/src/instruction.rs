//! The commands of the contest program and their byte form.

use vstd::prelude::*;
use crate::error::ProcessError;
use crate::wire::{get_u32, get_u64, lemma_integer_bytes, lemma_subrange_join, u32_bytes, u64_bytes};

verus! {

/// A command, with the accounts it is sent with.
#[derive(Clone, Debug, PartialEq, Eq)]
pub enum TypingInstruction {
    /// Makes the player record of the signer.
    /// Accounts: the signer; the player record at its derived address; the
    /// system program.
    InitializePlayer,
    /// Makes a contest.
    /// Accounts: the signer, who is the creator; the contest record; the
    /// system program.
    CreateContest { text_id: u32, duration: u64 },
    /// Lets the signer join a contest.
    /// Accounts: the signer; the contest record; the signer's player record.
    JoinContest,
    /// Submits the signer's result in a contest.
    /// Accounts: the signer; the contest record; the signer's player record.
    SubmitResult { wpm: u32, accuracy: u32, time_taken: u64 },
    /// Records an attempt that the signer made in practice.
    /// Accounts: the signer; the signer's player record.
    UpdatePracticeStats { wpm: u32, accuracy: u32, words_typed: u32 },
}

impl TypingInstruction {
    /// The bytes of a command: the number of its kind, counted from zero in
    /// the order of declaration, then its fields in the encodings of their
    /// types.
    pub open spec fn encoding(self) -> Seq<u8> {
        match self {
            TypingInstruction::InitializePlayer => seq![0u8],
            TypingInstruction::CreateContest { text_id, duration } => seq![1u8] + u32_bytes(text_id) + u64_bytes(
                duration,
            ),
            TypingInstruction::JoinContest => seq![2u8],
            TypingInstruction::SubmitResult { wpm, accuracy, time_taken } => seq![3u8] + u32_bytes(wpm) + u32_bytes(
                accuracy,
            ) + u64_bytes(time_taken),
            TypingInstruction::UpdatePracticeStats { wpm, accuracy, words_typed } => seq![4u8] + u32_bytes(wpm)
                + u32_bytes(accuracy) + u32_bytes(words_typed),
        }
    }

    /// The bytes of a command begin with the number of its kind and are as
    /// long as that kind's fields ask.
    pub proof fn lemma_encoding_shape(self)
        ensures
            self.encoding()[0] == match self {
                TypingInstruction::InitializePlayer => 0u8,
                TypingInstruction::CreateContest { .. } => 1u8,
                TypingInstruction::JoinContest => 2u8,
                TypingInstruction::SubmitResult { .. } => 3u8,
                TypingInstruction::UpdatePracticeStats { .. } => 4u8,
            },
            self.encoding().len() == match self {
                TypingInstruction::InitializePlayer => 1int,
                TypingInstruction::CreateContest { .. } => 13int,
                TypingInstruction::JoinContest => 1int,
                TypingInstruction::SubmitResult { .. } => 17int,
                TypingInstruction::UpdatePracticeStats { .. } => 13int,
            },
    {
        lemma_integer_bytes();
    }

    /// Commands with the same bytes are the same command.
    pub proof fn lemma_encoding_injective(a: TypingInstruction, b: TypingInstruction)
        requires
            a.encoding() == b.encoding(),
        ensures
            a == b,
    {
        lemma_integer_bytes();
        a.lemma_encoding_shape();
        b.lemma_encoding_shape();
        let s = a.encoding();
        match (a, b) {
            (
                TypingInstruction::CreateContest { text_id: t1, duration: d1 },
                TypingInstruction::CreateContest { text_id: t2, duration: d2 },
            ) => {
                assert(s.subrange(1, 5) =~= u32_bytes(t1));
                assert(s.subrange(1, 5) =~= u32_bytes(t2));
                assert(s.subrange(5, 13) =~= u64_bytes(d1));
                assert(s.subrange(5, 13) =~= u64_bytes(d2));
            },
            (
                TypingInstruction::SubmitResult { wpm: w1, accuracy: a1, time_taken: t1 },
                TypingInstruction::SubmitResult { wpm: w2, accuracy: a2, time_taken: t2 },
            ) => {
                assert(s.subrange(1, 5) =~= u32_bytes(w1));
                assert(s.subrange(1, 5) =~= u32_bytes(w2));
                assert(s.subrange(5, 9) =~= u32_bytes(a1));
                assert(s.subrange(5, 9) =~= u32_bytes(a2));
                assert(s.subrange(9, 17) =~= u64_bytes(t1));
                assert(s.subrange(9, 17) =~= u64_bytes(t2));
            },
            (
                TypingInstruction::UpdatePracticeStats { wpm: w1, accuracy: a1, words_typed: t1 },
                TypingInstruction::UpdatePracticeStats { wpm: w2, accuracy: a2, words_typed: t2 },
            ) => {
                assert(s.subrange(1, 5) =~= u32_bytes(w1));
                assert(s.subrange(1, 5) =~= u32_bytes(w2));
                assert(s.subrange(5, 9) =~= u32_bytes(a1));
                assert(s.subrange(5, 9) =~= u32_bytes(a2));
                assert(s.subrange(9, 13) =~= u32_bytes(t1));
                assert(s.subrange(9, 13) =~= u32_bytes(t2));
            },
            _ => {},
        }
    }

    /// The command that `bytes` are the bytes of, if they are those of one.
    pub open spec fn decoded(bytes: Seq<u8>) -> Option<TypingInstruction> {
        if exists|i: TypingInstruction| #[trigger] i.encoding() == bytes {
            Some(choose|i: TypingInstruction| #[trigger] i.encoding() == bytes)
        } else {
            None
        }
    }

    /// The bytes of a command are read back as that command.
    pub proof fn lemma_round_trip(self)
        ensures
            TypingInstruction::decoded(self.encoding()) == Some(self),
    {
        TypingInstruction::lemma_encoding_injective(self, TypingInstruction::decoded(self.encoding()).unwrap());
    }

    /// The command that `input` is the bytes of. Bytes that are those of no
    /// command, too few or too many among them, are refused as invalid
    /// instruction data.
    pub fn unpack(input: &[u8]) -> (r: Result<TypingInstruction, ProcessError>)
        ensures
            match r {
                Ok(instruction) => instruction.encoding() == input@,
                Err(e) => e == ProcessError::InvalidInstructionData && forall|i: TypingInstruction|
                    #[trigger] i.encoding() != input@,
            },
            match r {
                Ok(instruction) => TypingInstruction::decoded(input@) == Some(instruction),
                Err(_) => TypingInstruction::decoded(input@).is_none(),
            },
    {
        let r = Self::read(input);
        proof {
            if r.is_ok() {
                TypingInstruction::lemma_encoding_injective(
                    r.unwrap(),
                    TypingInstruction::decoded(input@).unwrap(),
                );
            }
        }
        r
    }

    /// Reads a command from `input`, which it must fill.
    fn read(input: &[u8]) -> (r: Result<TypingInstruction, ProcessError>)
        ensures
            match r {
                Ok(instruction) => instruction.encoding() == input@,
                Err(e) => e == ProcessError::InvalidInstructionData && forall|i: TypingInstruction|
                    #[trigger] i.encoding() != input@,
            },
    {
        proof {
            assert forall|i: TypingInstruction| #[trigger] i.encoding() == input@ implies input@.len() >= 1 && (input@[0]
                == 0 || input@[0] == 2 ==> input@.len() == 1) && (input@[0] == 1 || input@[0] == 4 ==> input@.len()
                == 13) && (input@[0] == 3 ==> input@.len() == 17) && input@[0] <= 4 by {
                i.lemma_encoding_shape();
            }
        }
        let n = input.len();
        if n < 1 {
            return Err(ProcessError::InvalidInstructionData);
        }
        let kind = input[0];
        let ghost s = input@;
        proof {
            assert(s.subrange(0, 1) =~= seq![kind]);
        }
        if kind == 0 && n == 1 {
            assert(s =~= seq![0u8]);
            Ok(TypingInstruction::InitializePlayer)
        } else if kind == 1 && n == 13 {
            let text_id = get_u32(input, 1);
            let duration = get_u64(input, 5);
            proof {
                lemma_subrange_join(s, 0, 1, 5);
                lemma_subrange_join(s, 0, 5, 13);
                assert(s.subrange(0, 13) =~= s);
            }
            Ok(TypingInstruction::CreateContest { text_id, duration })
        } else if kind == 2 && n == 1 {
            assert(s =~= seq![2u8]);
            Ok(TypingInstruction::JoinContest)
        } else if kind == 3 && n == 17 {
            let wpm = get_u32(input, 1);
            let accuracy = get_u32(input, 5);
            let time_taken = get_u64(input, 9);
            proof {
                lemma_subrange_join(s, 0, 1, 5);
                lemma_subrange_join(s, 0, 5, 9);
                lemma_subrange_join(s, 0, 9, 17);
                assert(s.subrange(0, 17) =~= s);
            }
            Ok(TypingInstruction::SubmitResult { wpm, accuracy, time_taken })
        } else if kind == 4 && n == 13 {
            let wpm = get_u32(input, 1);
            let accuracy = get_u32(input, 5);
            let words_typed = get_u32(input, 9);
            proof {
                lemma_subrange_join(s, 0, 1, 5);
                lemma_subrange_join(s, 0, 5, 9);
                lemma_subrange_join(s, 0, 9, 13);
                assert(s.subrange(0, 13) =~= s);
            }
            Ok(TypingInstruction::UpdatePracticeStats { wpm, accuracy, words_typed })
        } else {
            Err(ProcessError::InvalidInstructionData)
        }
    }
}

} // verus!
