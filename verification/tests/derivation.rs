use solana_program::pubkey::Pubkey;
use std::collections::HashSet;
use typing_contest::address::Address;
use typing_contest::processor::PLAYER_TAG;

fn address(key: &Pubkey) -> Address {
    Address::new(key.to_bytes())
}

#[test]
fn test_pda_generation() {
    let payer = address(&Pubkey::new_unique());
    let program_id = address(&Pubkey::new_unique());

    let (pda1, bump1) = typing_contest::address::derive(b"player", &payer, &program_id).unwrap();

    let (pda2, bump2) = typing_contest::address::derive(b"player", &payer, &program_id).unwrap();

    // Same inputs should generate same PDA and bump
    assert_eq!(pda1, pda2);
    assert_eq!(bump1, bump2);

    // Different payer should generate different PDA
    let other_payer = address(&Pubkey::new_unique());
    let (pda3, _) = typing_contest::address::derive(b"player", &other_payer, &program_id).unwrap();

    assert_ne!(pda1, pda3);
}

#[test]
fn derive_is_the_ledgers_search() {
    let program = Pubkey::new_unique();
    for _ in 0..50 {
        let owner = Pubkey::new_unique();
        let (key, bump) = Pubkey::find_program_address(&[b"player", owner.as_ref()], &program);
        let found = typing_contest::address::derive(b"player", &address(&owner), &address(&program));
        assert_eq!(found, Some((address(&key), bump)));
        // Neither argument comes back as the address.
        assert_ne!(found.unwrap().0, address(&owner));
        assert_ne!(found.unwrap().0, address(&program));
        // The address completes to a valid one under its nonce.
        let again = Pubkey::create_program_address(&[b"player", owner.as_ref(), &[bump]], &program).unwrap();
        assert_eq!(address(&again), found.unwrap().0);
    }
}

#[test]
fn the_player_tag_spells_player() {
    assert_eq!(&PLAYER_TAG, b"player");
}

#[test]
fn derive_depends_on_tag_and_program() {
    let owner = address(&Pubkey::new_unique());
    let program = address(&Pubkey::new_unique());
    let other_program = address(&Pubkey::new_unique());
    let player = typing_contest::address::derive(b"player", &owner, &program).unwrap();
    let contest = typing_contest::address::derive(b"contest", &owner, &program).unwrap();
    let elsewhere = typing_contest::address::derive(b"player", &owner, &other_program).unwrap();
    assert_ne!(player.0, contest.0);
    assert_ne!(player.0, elsewhere.0);
}

#[test]
fn derive_refuses_a_tag_longer_than_a_seed() {
    let owner = address(&Pubkey::new_unique());
    let program = address(&Pubkey::new_unique());
    assert!(typing_contest::address::derive(&[7u8; 32], &owner, &program).is_some());
    assert_eq!(typing_contest::address::derive(&[7u8; 33], &owner, &program), None);
}

#[test]
fn distinct_owners_have_distinct_addresses() {
    // 150 owners make 11,175 pairs of distinct owners.
    let program = address(&Pubkey::new_unique());
    let mut owners = HashSet::new();
    let mut addresses = HashSet::new();
    for i in 0u32..150 {
        let mut bytes = [0u8; 32];
        bytes[..4].copy_from_slice(&i.to_le_bytes());
        bytes[31] = (i % 7) as u8;
        let owner = Address::new(bytes);
        let (derived, _) = typing_contest::address::derive(&PLAYER_TAG, &owner, &program).unwrap();
        let (again, _) = typing_contest::address::derive(&PLAYER_TAG, &owner, &program).unwrap();
        assert_eq!(derived, again);
        owners.insert(owner);
        addresses.insert(derived);
    }
    assert_eq!(owners.len(), 150);
    assert_eq!(addresses.len(), 150);
    assert!(owners.len() * (owners.len() - 1) / 2 >= 10_000);
}

#[test]
fn addresses_compare_by_their_bytes() {
    let a = Address::new([1u8; 32]);
    let mut bytes = [1u8; 32];
    assert!(a.same(&Address::new(bytes)));
    assert_eq!(a, Address::new(bytes));
    bytes[31] = 2;
    assert!(!a.same(&Address::new(bytes)));
    assert_ne!(a, Address::new(bytes));
    bytes[31] = 1;
    bytes[0] = 0;
    assert_ne!(a, Address::new(bytes));
}
