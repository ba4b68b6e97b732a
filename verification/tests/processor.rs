use solana_program::pubkey::Pubkey;
use solana_program::system_program;
use typing_contest::address::Address;
use typing_contest::error::{ProcessError, TypingError};
use typing_contest::instruction::TypingInstruction;
use typing_contest::processor::{Account, Outcome, Processor};
use typing_contest::state::{Contest, ContestStatus, Player};

fn address(key: &Pubkey) -> Address {
    Address::new(key.to_bytes())
}

/// Helper function to create test accounts
fn create_test_accounts() -> (Pubkey, Pubkey, Pubkey) {
    let payer = Pubkey::new_unique();
    let program_id = Pubkey::new_unique();

    // Generate the expected PDA
    let (player_pda, _) = Pubkey::find_program_address(&[b"player", payer.as_ref()], &program_id);

    (payer, player_pda, program_id)
}

/// Helper function to create an account from test data. The library's
/// account holds the key, the signer flag and the data; the other values
/// describe the ledger's side of the account.
fn create_account_info(
    key: &Pubkey,
    is_signer: bool,
    _is_writable: bool,
    _lamports: &mut u64,
    data: &mut [u8],
    _owner: &Pubkey,
) -> Account {
    Account { key: address(key), is_signer, data: data.to_vec() }
}

#[test]
fn test_initialize_player_missing_signature() {
    let (payer, player_pda, program_id) = create_test_accounts();
    let system_program_id = system_program::id();

    let mut payer_lamports = 1_000_000_000;
    let mut payer_data = vec![];
    let mut player_lamports = 0;
    let mut player_data = vec![0; Player::SIZE];
    let mut system_lamports = 0;
    let mut system_data = vec![];

    // Create payer account WITHOUT signer flag
    let payer_account = create_account_info(
        &payer,
        false, // is_signer = false (this should cause the error)
        true,
        &mut payer_lamports,
        &mut payer_data,
        &system_program_id,
    );

    let player_account =
        create_account_info(&player_pda, false, true, &mut player_lamports, &mut player_data, &program_id);

    let system_account = create_account_info(
        &system_program_id,
        false,
        false,
        &mut system_lamports,
        &mut system_data,
        &system_program_id,
    );

    let mut accounts = vec![payer_account, player_account, system_account];

    let result = Processor::process_initialize_player(&address(&program_id), &mut accounts);

    assert_eq!(result.unwrap_err(), ProcessError::MissingRequiredSignature);
}

#[test]
fn test_initialize_player_invalid_pda() {
    let (payer, _player_pda, program_id) = create_test_accounts();
    let wrong_pda = Pubkey::new_unique(); // Wrong PDA
    let system_program_id = system_program::id();

    let mut payer_lamports = 1_000_000_000;
    let mut payer_data = vec![];
    let mut player_lamports = 0;
    let mut player_data = vec![0; Player::SIZE];
    let mut system_lamports = 0;
    let mut system_data = vec![];

    let payer_account =
        create_account_info(&payer, true, true, &mut payer_lamports, &mut payer_data, &system_program_id);

    // Use wrong PDA address
    let player_account = create_account_info(
        &wrong_pda, // This is not the expected PDA
        false,
        true,
        &mut player_lamports,
        &mut player_data,
        &program_id,
    );

    let system_account = create_account_info(
        &system_program_id,
        false,
        false,
        &mut system_lamports,
        &mut system_data,
        &system_program_id,
    );

    let mut accounts = vec![payer_account, player_account, system_account];

    let result = Processor::process_initialize_player(&address(&program_id), &mut accounts);

    assert_eq!(result.unwrap_err(), ProcessError::from(TypingError::InvalidAccountData));
}

#[test]
fn test_initialize_player_already_initialized() {
    let (payer, player_pda, program_id) = create_test_accounts();
    let system_program_id = system_program::id();

    let mut payer_lamports = 1_000_000_000;
    let mut payer_data = vec![];
    let mut player_lamports = 0;

    // Create player data that's already initialized (non-zero length)
    let existing_player = Player::new(address(&payer), 1234567890);
    let mut player_data = vec![0; Player::SIZE];
    player_data.copy_from_slice(&existing_player.to_bytes());

    let mut system_lamports = 0;
    let mut system_data = vec![];

    let payer_account =
        create_account_info(&payer, true, true, &mut payer_lamports, &mut payer_data, &system_program_id);

    let player_account =
        create_account_info(&player_pda, false, true, &mut player_lamports, &mut player_data, &program_id);

    let system_account = create_account_info(
        &system_program_id,
        false,
        false,
        &mut system_lamports,
        &mut system_data,
        &system_program_id,
    );

    let mut accounts = vec![payer_account, player_account, system_account];

    let result = Processor::process_initialize_player(&address(&program_id), &mut accounts);

    assert_eq!(result.unwrap_err(), ProcessError::from(TypingError::PlayerAlreadyInitialized));
}

#[test]
fn test_initialize_player_insufficient_accounts() {
    let (payer, _player_pda, program_id) = create_test_accounts();
    let system_program_id = system_program::id();

    let mut payer_lamports = 1_000_000_000;
    let mut payer_data = vec![];

    let payer_account =
        create_account_info(&payer, true, true, &mut payer_lamports, &mut payer_data, &system_program_id);

    // Only provide one account instead of three
    let mut accounts = vec![payer_account];

    let result = Processor::process_initialize_player(&address(&program_id), &mut accounts);

    assert_eq!(result.unwrap_err(), ProcessError::NotEnoughAccountKeys);
}

// ---------------------------------------------------------------------------

struct Fixture {
    program_id: Address,
    system: Account,
}

fn fixture() -> Fixture {
    Fixture {
        program_id: address(&Pubkey::new_unique()),
        system: Account { key: address(&system_program::id()), is_signer: false, data: vec![] },
    }
}

fn signer(key: &Pubkey) -> Account {
    Account { key: address(key), is_signer: true, data: vec![] }
}

fn player_record(program_id: &Address, owner: &Pubkey, data: Vec<u8>) -> Account {
    let program = Pubkey::new_from_array(program_id.bytes);
    let (pda, _) = Pubkey::find_program_address(&[b"player", owner.as_ref()], &program);
    Account { key: address(&pda), is_signer: false, data }
}

fn instruction_bytes(kind: u8, fields: &[&[u8]]) -> Vec<u8> {
    let mut bytes = vec![kind];
    for field in fields {
        bytes.extend_from_slice(field);
    }
    bytes
}

/// A player record, initialized through the dispatcher at `now`.
fn initialized(f: &Fixture, owner: &Pubkey, now: i64) -> Account {
    let mut accounts = vec![signer(owner), player_record(&f.program_id, owner, vec![]), f.system.clone()];
    let outcome = Processor::process_at(&f.program_id, &mut accounts, &[0], Some(now)).unwrap();
    assert!(matches!(outcome, Outcome::Created { space, nonce: Some(_) } if space == Player::SIZE));
    accounts.swap_remove(1)
}

/// A contest record, created through the dispatcher at `now`.
fn created(f: &Fixture, creator: &Pubkey, text_id: u32, duration: u64, now: i64) -> Account {
    let contest = Account { key: address(&Pubkey::new_unique()), is_signer: false, data: vec![] };
    let mut accounts = vec![signer(creator), contest, f.system.clone()];
    let data = instruction_bytes(1, &[&text_id.to_le_bytes(), &duration.to_le_bytes()]);
    let outcome = Processor::process_at(&f.program_id, &mut accounts, &data, Some(now)).unwrap();
    assert_eq!(outcome, Outcome::Created { space: Contest::SIZE, nonce: None });
    accounts.swap_remove(1)
}

fn join(f: &Fixture, who: &Pubkey, contest: &mut Account, record: &Account, clock: Option<i64>) -> Result<Outcome, ProcessError> {
    let mut accounts = vec![signer(who), contest.clone(), record.clone()];
    let r = Processor::process_at(&f.program_id, &mut accounts, &[2], clock);
    if r.is_err() {
        assert_eq!(accounts[1], *contest);
        assert_eq!(accounts[2], *record);
    }
    *contest = accounts.swap_remove(1);
    r
}

fn submit(
    f: &Fixture,
    who: &Pubkey,
    contest: &mut Account,
    record: &mut Account,
    wpm: u32,
    accuracy: u32,
    time_taken: u64,
    clock: Option<i64>,
) -> Result<Outcome, ProcessError> {
    let mut accounts = vec![signer(who), contest.clone(), record.clone()];
    let data = instruction_bytes(3, &[&wpm.to_le_bytes(), &accuracy.to_le_bytes(), &time_taken.to_le_bytes()]);
    let r = Processor::process_at(&f.program_id, &mut accounts, &data, clock);
    if r.is_err() {
        assert_eq!(accounts[1], *contest);
        assert_eq!(accounts[2], *record);
    }
    *record = accounts.swap_remove(2);
    *contest = accounts.swap_remove(1);
    r
}

fn practice(
    f: &Fixture,
    who: &Pubkey,
    record: &mut Account,
    wpm: u32,
    accuracy: u32,
    words_typed: u32,
    clock: Option<i64>,
) -> Result<Outcome, ProcessError> {
    let mut accounts = vec![signer(who), record.clone()];
    let data = instruction_bytes(4, &[&wpm.to_le_bytes(), &accuracy.to_le_bytes(), &words_typed.to_le_bytes()]);
    let r = Processor::process_at(&f.program_id, &mut accounts, &data, clock);
    if r.is_err() {
        assert_eq!(accounts[1], *record);
    }
    *record = accounts.swap_remove(1);
    r
}

fn stored_contest(account: &Account) -> Contest {
    Contest::try_from_slice(&account.data).unwrap()
}

fn stored_player(account: &Account) -> Player {
    Player::try_from_slice(&account.data).unwrap()
}

#[test]
fn initialize_player_writes_a_zeroed_record() {
    let f = fixture();
    let owner = Pubkey::new_unique();
    let record = initialized(&f, &owner, 1640995200);
    assert_eq!(record.data.len(), Player::SIZE);
    assert_eq!(stored_player(&record), Player::new(address(&owner), 1640995200));
}

#[test]
fn initialize_player_reports_the_nonce_of_the_derivation() {
    let f = fixture();
    let owner = Pubkey::new_unique();
    let program = Pubkey::new_from_array(f.program_id.bytes);
    let (_, bump) = Pubkey::find_program_address(&[b"player", owner.as_ref()], &program);
    let mut accounts = vec![signer(&owner), player_record(&f.program_id, &owner, vec![]), f.system.clone()];
    let outcome = Processor::process_at(&f.program_id, &mut accounts, &[0], Some(5)).unwrap();
    assert_eq!(outcome, Outcome::Created { space: 72, nonce: Some(bump) });
}

#[test]
fn initialize_player_twice_is_rejected_and_keeps_the_record() {
    let f = fixture();
    let owner = Pubkey::new_unique();
    let mut accounts = vec![signer(&owner), player_record(&f.program_id, &owner, vec![]), f.system.clone()];
    Processor::process_at(&f.program_id, &mut accounts, &[0], Some(1234567890)).unwrap();
    let after_first = accounts.clone();
    let second = Processor::process_at(&f.program_id, &mut accounts, &[0], Some(1234567999));
    assert_eq!(second, Err(ProcessError::from(TypingError::PlayerAlreadyInitialized)));
    assert_eq!(second, Err(ProcessError::Custom(1)));
    assert_eq!(accounts, after_first);
    assert_eq!(accounts[1].data, Player::new(address(&owner), 1234567890).to_bytes());
    // The same through the entry points that read the ledger's time.
    let third = Processor::process(&f.program_id, &mut accounts, &[0]);
    assert_eq!(third, Err(ProcessError::from(TypingError::PlayerAlreadyInitialized)));
    let fourth = Processor::process_initialize_player(&f.program_id, &mut accounts);
    assert_eq!(fourth, Err(ProcessError::from(TypingError::PlayerAlreadyInitialized)));
    assert_eq!(accounts, after_first);
}

#[test]
fn initialize_player_without_clock_is_rejected_last() {
    let f = fixture();
    let owner = Pubkey::new_unique();
    let mut accounts = vec![signer(&owner), player_record(&f.program_id, &owner, vec![]), f.system.clone()];
    let before = accounts.clone();
    let r = Processor::process_at(&f.program_id, &mut accounts, &[0], None);
    assert_eq!(r, Err(ProcessError::ClockUnavailable));
    assert_eq!(accounts, before);
}

#[test]
fn entry_points_read_the_ledgers_time() {
    // Off the ledger no time is to be had: a command that passes every
    // check before the time is asked for is rejected there, and no sooner.
    let f = fixture();
    let owner = Pubkey::new_unique();
    let mut accounts = vec![signer(&owner), player_record(&f.program_id, &owner, vec![]), f.system.clone()];
    let before = accounts.clone();
    assert_eq!(Processor::process(&f.program_id, &mut accounts, &[0]), Err(ProcessError::ClockUnavailable));
    assert_eq!(
        Processor::process_initialize_player(&f.program_id, &mut accounts),
        Err(ProcessError::ClockUnavailable)
    );
    assert_eq!(
        Processor::process_create_contest(&f.program_id, &mut accounts, 1, 60),
        Err(ProcessError::ClockUnavailable)
    );
    assert_eq!(accounts, before);

    let mut record = initialized(&f, &owner, 10);
    let mut pair = vec![signer(&owner), record.clone()];
    assert_eq!(
        Processor::process_update_practice_stats(&f.program_id, &mut pair, 60, 90, 100),
        Err(ProcessError::ClockUnavailable)
    );
    assert_eq!(pair[1], record);

    // A first join asks for no time.
    let mut contest = created(&f, &Pubkey::new_unique(), 3, 60, 100);
    let mut accounts = vec![signer(&owner), contest.clone(), record.clone()];
    assert_eq!(Processor::process_join_contest(&f.program_id, &mut accounts), Ok(Outcome::Updated));
    assert_eq!(stored_contest(&accounts[1]).participants, vec![address(&owner)]);
    contest = accounts.swap_remove(1);
    // A second does.
    let other = Pubkey::new_unique();
    let other_record = initialized(&f, &other, 11);
    let mut accounts = vec![signer(&other), contest.clone(), other_record];
    assert_eq!(Processor::process(&f.program_id, &mut accounts, &[2]), Err(ProcessError::ClockUnavailable));
    assert_eq!(accounts[1], contest);

    // Rejections that come before the time is asked for.
    let mut accounts = vec![signer(&owner), contest.clone(), record.clone()];
    assert_eq!(
        Processor::process_submit_result(&f.program_id, &mut accounts, 80, 97, 45),
        Err(ProcessError::from(TypingError::ContestNotActive))
    );
    join(&f, &other, &mut contest, &initialized(&f, &other, 11), Some(200)).unwrap();
    let mut accounts = vec![signer(&owner), contest.clone(), record.clone()];
    assert_eq!(
        Processor::process_submit_result(&f.program_id, &mut accounts, 80, 97, 45),
        Err(ProcessError::ClockUnavailable)
    );
    assert_eq!(submit(&f, &owner, &mut contest, &mut record, 80, 97, 45, Some(300)), Ok(Outcome::Updated));
}

#[test]
fn initialize_player_with_a_given_derivation() {
    let owner = address(&Pubkey::new_unique());
    let record = address(&Pubkey::new_unique());
    let other = address(&Pubkey::new_unique());
    let account = |key: Address, is_signer: bool| Account { key, is_signer, data: vec![] };
    let fresh = vec![account(owner, true), account(record, false), account(other, false)];

    let mut accounts = fresh.clone();
    let r = Processor::initialize_player(&mut accounts, Some((record, 254)), Some(42));
    assert_eq!(r, Ok(Outcome::Created { space: Player::SIZE, nonce: Some(254) }));
    assert_eq!(accounts[1].data, Player::new(owner, 42).to_bytes());
    assert_eq!(accounts[0], fresh[0]);
    assert_eq!(accounts[2], fresh[2]);

    let mut accounts = fresh.clone();
    let r = Processor::initialize_player(&mut accounts, Some((other, 254)), Some(42));
    assert_eq!(r, Err(ProcessError::Custom(8)));
    assert_eq!(accounts, fresh);

    let mut accounts = fresh.clone();
    let r = Processor::initialize_player(&mut accounts, None, Some(42));
    assert_eq!(r, Err(ProcessError::from(TypingError::InvalidAccountData)));
    assert_eq!(accounts, fresh);
}

#[test]
fn unknown_instruction_is_rejected() {
    let f = fixture();
    let owner = Pubkey::new_unique();
    let mut accounts = vec![signer(&owner), player_record(&f.program_id, &owner, vec![]), f.system.clone()];
    let before = accounts.clone();
    for data in [&[][..], &[5][..], &[0, 0][..], &[1, 2, 3][..], &[255][..]] {
        let r = Processor::process_at(&f.program_id, &mut accounts, data, Some(1));
        assert_eq!(r, Err(ProcessError::InvalidInstructionData));
        let r = Processor::process(&f.program_id, &mut accounts, data);
        assert_eq!(r, Err(ProcessError::InvalidInstructionData));
        assert_eq!(accounts, before);
    }
}

#[test]
fn create_contest_fills_the_slot() {
    let f = fixture();
    let creator = Pubkey::new_unique();
    let record = created(&f, &creator, 7, 60, 1000);
    assert_eq!(record.data.len(), Contest::SIZE);
    assert_eq!(record.data.len(), 1032);
    let contest = stored_contest(&record);
    assert_eq!(contest, Contest::new(address(&creator), 7, 60, 1000));
    let encoded = contest.to_bytes().unwrap();
    assert_eq!(encoded.len(), 64);
    assert_eq!(&record.data[..64], &encoded[..]);
    assert!(record.data[64..].iter().all(|b| *b == 0));
}

#[test]
fn create_contest_checks_accounts_signature_and_clock() {
    let f = fixture();
    let creator = Pubkey::new_unique();
    let slot = Account { key: address(&Pubkey::new_unique()), is_signer: false, data: vec![] };

    let mut accounts = vec![signer(&creator), slot.clone()];
    let r = Processor::create_contest(&mut accounts, 1, 60, Some(1));
    assert_eq!(r, Err(ProcessError::NotEnoughAccountKeys));
    let r = Processor::process_create_contest(&f.program_id, &mut accounts, 1, 60);
    assert_eq!(r, Err(ProcessError::NotEnoughAccountKeys));

    let mut unsigned = signer(&creator);
    unsigned.is_signer = false;
    let mut accounts = vec![unsigned, slot.clone(), f.system.clone()];
    let r = Processor::create_contest(&mut accounts, 1, 60, Some(1));
    assert_eq!(r, Err(ProcessError::MissingRequiredSignature));
    let r = Processor::process_create_contest(&f.program_id, &mut accounts, 1, 60);
    assert_eq!(r, Err(ProcessError::MissingRequiredSignature));

    let mut accounts = vec![signer(&creator), slot.clone(), f.system.clone()];
    let r = Processor::create_contest(&mut accounts, 1, 60, None);
    assert_eq!(r, Err(ProcessError::ClockUnavailable));
    assert_eq!(accounts[1], slot);
}

#[test]
fn two_joins_start_the_contest_through_the_dispatcher() {
    let f = fixture();
    let creator = Pubkey::new_unique();
    let (alice, bob) = (Pubkey::new_unique(), Pubkey::new_unique());
    let alice_record = initialized(&f, &alice, 10);
    let bob_record = initialized(&f, &bob, 11);
    let mut contest = created(&f, &creator, 3, 60, 100);

    // The first join does not start the contest, and needs no clock.
    assert_eq!(join(&f, &alice, &mut contest, &alice_record, None), Ok(Outcome::Updated));
    let stored = stored_contest(&contest);
    assert_eq!(stored.status, ContestStatus::Waiting);
    assert_eq!(stored.participants, vec![address(&alice)]);
    assert_eq!(stored.started_at, None);

    // The second does, and is rejected without one.
    assert_eq!(join(&f, &bob, &mut contest, &bob_record, None), Err(ProcessError::ClockUnavailable));
    assert_eq!(join(&f, &bob, &mut contest, &bob_record, Some(250)), Ok(Outcome::Updated));
    let stored = stored_contest(&contest);
    assert_eq!(stored.status, ContestStatus::Active);
    assert_eq!(stored.participants, vec![address(&alice), address(&bob)]);
    assert_eq!(stored.started_at, Some(250));
    assert_eq!(stored.ended_at, None);
    assert_eq!(contest.data.len(), Contest::SIZE);
}

#[test]
fn join_rejections_through_the_dispatcher() {
    let f = fixture();
    let creator = Pubkey::new_unique();
    let (alice, bob, carol) = (Pubkey::new_unique(), Pubkey::new_unique(), Pubkey::new_unique());
    let alice_record = initialized(&f, &alice, 10);
    let bob_record = initialized(&f, &bob, 11);
    let carol_record = initialized(&f, &carol, 12);
    let mut contest = created(&f, &creator, 3, 60, 100);

    // A record that is not the signer's own.
    assert_eq!(
        join(&f, &alice, &mut contest, &bob_record, Some(1)),
        Err(ProcessError::from(TypingError::InvalidAccountData))
    );
    // A slot that holds no contest.
    let mut empty = Account { key: contest.key, is_signer: false, data: vec![] };
    assert_eq!(join(&f, &alice, &mut empty, &alice_record, Some(1)), Err(ProcessError::Custom(8)));

    join(&f, &alice, &mut contest, &alice_record, Some(200)).unwrap();
    // The same player again.
    assert_eq!(
        join(&f, &alice, &mut contest, &alice_record, Some(201)),
        Err(ProcessError::from(TypingError::AlreadyJoined))
    );
    join(&f, &bob, &mut contest, &bob_record, Some(202)).unwrap();
    // The contest is active: nobody joins any more.
    assert_eq!(
        join(&f, &carol, &mut contest, &carol_record, Some(203)),
        Err(ProcessError::from(TypingError::ContestFull))
    );
    assert_eq!(
        join(&f, &carol, &mut contest, &carol_record, Some(203)),
        Err(ProcessError::Custom(3))
    );
    assert_eq!(stored_contest(&contest).participants.len(), 2);
}

#[test]
fn a_join_needs_room_in_the_slot() {
    let f = fixture();
    let (alice, bob) = (Pubkey::new_unique(), Pubkey::new_unique());
    let alice_record = initialized(&f, &alice, 10);
    let bob_record = initialized(&f, &bob, 11);
    let full = created(&f, &Pubkey::new_unique(), 3, 60, 100);
    // An empty contest takes 64 bytes, each participant 32 more.
    let mut slot = full.clone();
    slot.data.truncate(64 + 32 + 31);
    assert_eq!(join(&f, &alice, &mut slot, &alice_record, Some(1)), Ok(Outcome::Updated));
    assert_eq!(slot.data.len(), 64 + 32 + 31);
    assert_eq!(join(&f, &bob, &mut slot, &bob_record, Some(2)), Err(ProcessError::AccountDataTooSmall));
    assert_eq!(stored_contest(&slot).participants, vec![address(&alice)]);
    assert_eq!(stored_contest(&slot).status, ContestStatus::Waiting);
    // What lies behind the record in the slot is left alone.
    let mut noisy = full.clone();
    for b in noisy.data[64..].iter_mut() {
        *b = 0xab;
    }
    assert_eq!(join(&f, &alice, &mut noisy, &alice_record, Some(1)), Ok(Outcome::Updated));
    assert_eq!(noisy.data.len(), Contest::SIZE);
    assert!(noisy.data[96..].iter().all(|b| *b == 0xab));
    assert_eq!(stored_contest(&noisy).participants, vec![address(&alice)]);
}

#[test]
fn dispatch_takes_the_command_the_derivation_and_the_time() {
    let owner = address(&Pubkey::new_unique());
    let record = address(&Pubkey::new_unique());
    let mut accounts = vec![
        Account { key: owner, is_signer: true, data: vec![] },
        Account { key: record, is_signer: false, data: vec![] },
        Account { key: address(&system_program::id()), is_signer: false, data: vec![] },
    ];
    let r = Processor::dispatch(&mut accounts, &TypingInstruction::InitializePlayer, Some((record, 7)), Some(50));
    assert_eq!(r, Ok(Outcome::Created { space: Player::SIZE, nonce: Some(7) }));
    accounts.pop();
    let practice = TypingInstruction::UpdatePracticeStats { wpm: 66, accuracy: 93, words_typed: 120 };
    let r = Processor::dispatch(&mut accounts, &practice, Some((record, 7)), Some(60));
    assert_eq!(r, Ok(Outcome::Updated));
    let stats = stored_player(&accounts[1]);
    assert_eq!((stats.total_tests, stats.average_wpm, stats.total_words_typed), (1, 66, 120));
    assert_eq!((stats.created_at, stats.last_activity), (50, 60));
    let r = Processor::dispatch(&mut accounts, &practice, Some((owner, 7)), Some(70));
    assert_eq!(r, Err(ProcessError::Custom(8)));
    let r = Processor::dispatch(&mut accounts, &TypingInstruction::JoinContest, Some((record, 7)), Some(70));
    assert_eq!(r, Err(ProcessError::NotEnoughAccountKeys));
    assert_eq!(stored_player(&accounts[1]), stats);
}

#[test]
fn two_results_end_the_contest_through_the_dispatcher() {
    let f = fixture();
    let creator = Pubkey::new_unique();
    let (alice, bob) = (Pubkey::new_unique(), Pubkey::new_unique());
    let mut alice_record = initialized(&f, &alice, 10);
    let mut bob_record = initialized(&f, &bob, 11);
    let mut contest = created(&f, &creator, 3, 60, 100);
    join(&f, &alice, &mut contest, &alice_record, Some(200)).unwrap();
    join(&f, &bob, &mut contest, &bob_record, Some(201)).unwrap();

    assert_eq!(submit(&f, &alice, &mut contest, &mut alice_record, 80, 97, 45, Some(300)), Ok(Outcome::Updated));
    let stored = stored_contest(&contest);
    assert_eq!(stored.status, ContestStatus::Active);
    assert_eq!(stored.results.len(), 1);
    assert_eq!(stored.results[0].player, address(&alice));
    assert_eq!((stored.results[0].wpm, stored.results[0].accuracy), (80, 97));
    assert_eq!((stored.results[0].time_taken, stored.results[0].position), (45, 0));
    let stats = stored_player(&alice_record);
    assert_eq!(stats.total_tests, 1);
    assert_eq!(stats.best_wpm, 80);
    assert_eq!(stats.average_wpm, 80);
    assert_eq!(stats.best_accuracy, 97);
    assert_eq!(stats.total_words_typed, 60); // 80 * 45 / 60
    assert_eq!(stats.created_at, 10);
    assert_eq!(stats.last_activity, 300);

    assert_eq!(submit(&f, &bob, &mut contest, &mut bob_record, 70, 99, 60, Some(310)), Ok(Outcome::Updated));
    let stored = stored_contest(&contest);
    assert_eq!(stored.status, ContestStatus::Ended);
    assert_eq!(stored.started_at, Some(201));
    assert_eq!(stored.ended_at, Some(310));
    assert_eq!(stored.results.len(), 2);
    assert_eq!(stored.results[1].player, address(&bob));
    assert_eq!(stored_player(&bob_record).total_words_typed, 70);
    assert_eq!(contest.data.len(), Contest::SIZE);
}

#[test]
fn submit_rejections_through_the_dispatcher() {
    let f = fixture();
    let creator = Pubkey::new_unique();
    let (alice, bob, carol) = (Pubkey::new_unique(), Pubkey::new_unique(), Pubkey::new_unique());
    let mut alice_record = initialized(&f, &alice, 10);
    let mut bob_record = initialized(&f, &bob, 11);
    let mut carol_record = initialized(&f, &carol, 12);
    let mut contest = created(&f, &creator, 3, 60, 100);

    // Not active yet.
    join(&f, &alice, &mut contest, &alice_record, Some(200)).unwrap();
    assert_eq!(
        submit(&f, &alice, &mut contest, &mut alice_record, 80, 97, 45, Some(210)),
        Err(ProcessError::from(TypingError::ContestNotActive))
    );
    join(&f, &bob, &mut contest, &bob_record, Some(220)).unwrap();

    // Somebody who did not join.
    assert_eq!(
        submit(&f, &carol, &mut contest, &mut carol_record, 80, 97, 45, Some(230)),
        Err(ProcessError::from(TypingError::PlayerNotInContest))
    );
    // A record that is not the signer's own.
    assert_eq!(
        submit(&f, &alice, &mut contest, &mut bob_record, 80, 97, 45, Some(230)),
        Err(ProcessError::from(TypingError::InvalidAccountData))
    );
    // A record that holds no player.
    let mut broken = alice_record.clone();
    broken.data.pop();
    assert_eq!(
        submit(&f, &alice, &mut contest, &mut broken, 80, 97, 45, Some(230)),
        Err(ProcessError::Custom(8))
    );
    // No clock.
    assert_eq!(
        submit(&f, &alice, &mut contest, &mut alice_record, 80, 97, 45, None),
        Err(ProcessError::ClockUnavailable)
    );
    // Words that leave 32 bits.
    assert_eq!(
        submit(&f, &alice, &mut contest, &mut alice_record, u32::MAX, 97, 2, Some(230)),
        Err(ProcessError::ArithmeticOverflow)
    );
    // A slot too short for one more result.
    let mut short = contest.clone();
    short.data.truncate(stored_contest(&contest).to_bytes().unwrap().len() + 51);
    assert_eq!(
        submit(&f, &alice, &mut short, &mut alice_record, 80, 97, 45, Some(230)),
        Err(ProcessError::AccountDataTooSmall)
    );

    submit(&f, &alice, &mut contest, &mut alice_record, 80, 97, 45, Some(240)).unwrap();
    let before = stored_contest(&contest);
    // A second result of the same player.
    assert_eq!(
        submit(&f, &alice, &mut contest, &mut alice_record, 90, 99, 40, Some(250)),
        Err(ProcessError::from(TypingError::ResultAlreadySubmitted))
    );
    assert_eq!(stored_contest(&contest), before);
    assert_eq!(stored_contest(&contest).results.len(), 1);
    assert_eq!(stored_player(&alice_record).total_tests, 1);

    submit(&f, &bob, &mut contest, &mut bob_record, 70, 99, 60, Some(260)).unwrap();
    // Ended: nothing is taken any more.
    assert_eq!(
        submit(&f, &bob, &mut contest, &mut bob_record, 70, 99, 60, Some(270)),
        Err(ProcessError::Custom(6))
    );
}

#[test]
fn practice_updates_the_record_through_the_dispatcher() {
    let f = fixture();
    let owner = Pubkey::new_unique();
    let mut record = initialized(&f, &owner, 10);
    assert_eq!(practice(&f, &owner, &mut record, 60, 90, 100, Some(20)), Ok(Outcome::Updated));
    assert_eq!(practice(&f, &owner, &mut record, 81, 80, 50, Some(30)), Ok(Outcome::Updated));
    let stats = stored_player(&record);
    assert_eq!(stats.owner, address(&owner));
    assert_eq!(stats.total_tests, 2);
    assert_eq!(stats.best_wpm, 81);
    assert_eq!(stats.average_wpm, 70);
    assert_eq!(stats.best_accuracy, 90);
    assert_eq!(stats.total_words_typed, 150);
    assert_eq!(stats.created_at, 10);
    assert_eq!(stats.last_activity, 30);
}

#[test]
fn practice_rejections_through_the_dispatcher() {
    let f = fixture();
    let (owner, other) = (Pubkey::new_unique(), Pubkey::new_unique());
    let mut record = initialized(&f, &owner, 10);
    let mut other_record = initialized(&f, &other, 10);

    let mut accounts = vec![signer(&owner)];
    let r = Processor::process_update_practice_stats(&f.program_id, &mut accounts, 1, 1, 1);
    assert_eq!(r, Err(ProcessError::NotEnoughAccountKeys));

    let mut unsigned = signer(&owner);
    unsigned.is_signer = false;
    let mut accounts = vec![unsigned, record.clone()];
    let r = Processor::process_update_practice_stats(&f.program_id, &mut accounts, 1, 1, 1);
    assert_eq!(r, Err(ProcessError::MissingRequiredSignature));

    assert_eq!(
        practice(&f, &owner, &mut other_record, 1, 1, 1, Some(1)),
        Err(ProcessError::from(TypingError::InvalidAccountData))
    );
    let mut empty = record.clone();
    empty.data.clear();
    assert_eq!(practice(&f, &owner, &mut empty, 1, 1, 1, Some(1)), Err(ProcessError::Custom(8)));
    assert_eq!(practice(&f, &owner, &mut record, 1, 1, 1, None), Err(ProcessError::ClockUnavailable));

    // Counters at their end.
    let mut full = stored_player(&record);
    full.total_tests = u32::MAX;
    let mut at_end = record.clone();
    at_end.data = full.to_bytes();
    assert_eq!(practice(&f, &owner, &mut at_end, 1, 1, 1, Some(1)), Err(ProcessError::ArithmeticOverflow));
    let mut full = stored_player(&record);
    full.total_words_typed = u64::MAX - 4;
    at_end.data = full.to_bytes();
    assert_eq!(practice(&f, &owner, &mut at_end, 1, 1, 5, Some(1)), Err(ProcessError::ArithmeticOverflow));
    assert_eq!(practice(&f, &owner, &mut at_end, 1, 1, 4, Some(1)), Ok(Outcome::Updated));
    assert_eq!(stored_player(&at_end).total_words_typed, u64::MAX);
}

#[test]
fn words_of_a_contest_result() {
    assert_eq!(Processor::words_for(60, 30), Some(30));
    assert_eq!(Processor::words_for(80, 45), Some(60));
    assert_eq!(Processor::words_for(59, 1), Some(0));
    assert_eq!(Processor::words_for(0, u64::MAX), Some(0));
    assert_eq!(Processor::words_for(u32::MAX, 1), Some(71_582_788));
    assert_eq!(Processor::words_for(u32::MAX, 2), None);
    assert_eq!(Processor::words_for(65_536, 65_536), None);
    assert_eq!(Processor::words_for(65_536, 65_535), Some(71_581_696));
    // Only the low 32 bits of the seconds count.
    assert_eq!(Processor::words_for(60, (1u64 << 32) + 30), Some(30));
    assert_eq!(Processor::words_for(60, 1u64 << 32), Some(0));
}
