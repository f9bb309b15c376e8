use balloonfly::digest::generate_bet_id;
use balloonfly::{BalloonFlyContract, BetStatus, Error, RoundStatus};

const NOW: u64 = 1_000_000;

fn create_test_contract() -> (Vec<u8>, BalloonFlyContract) {
    let admin = b"GADMINACCOUNT".to_vec();
    let client = BalloonFlyContract::new(admin.clone());
    (admin, client)
}

fn generate_seed(value: u32) -> [u8; 32] {
    let mut bytes = [0u8; 32];
    bytes[0] = (value >> 24) as u8;
    bytes[1] = (value >> 16) as u8;
    bytes[2] = (value >> 8) as u8;
    bytes[3] = value as u8;
    bytes
}

fn hash_seed(seed: &[u8; 32]) -> [u8; 32] {
    let env = soroban_sdk::Env::default();
    let bytes = soroban_sdk::Bytes::from_slice(&env, seed);
    env.crypto().sha256(&bytes).to_array()
}

fn player(n: u32) -> Vec<u8> {
    format!("GPLAYER{:04}", n).into_bytes()
}

#[test]
fn test_initialization() {
    let (admin, client) = create_test_contract();

    let stored_admin = client.admin();
    assert_eq!(stored_admin, admin);

    let pool = client.get_pool();
    assert_eq!(pool.total_bets, 0);
    assert_eq!(pool.total_payouts, 0);
    assert_eq!(pool.total_house_earnings, 0);
}

#[test]
fn test_create_round() {
    let (_admin, mut client) = create_test_contract();

    let round_id = 1u64;
    let server_seed = generate_seed(12345);
    let server_seed_hash = hash_seed(&server_seed);

    let round = client.create_round(round_id, server_seed_hash, NOW).unwrap();

    assert_eq!(round.id, round_id);
    assert_eq!(round.status, RoundStatus::Waiting);
    assert_eq!(round.server_seed_hash, server_seed_hash);
    assert_eq!(round.crash_multiplier, 0);
    assert_eq!(round.total_bet_amount, 0);
    assert_eq!(round.bet_count, 0);
}

#[test]
fn test_create_duplicate_round() {
    let (_admin, mut client) = create_test_contract();

    let round_id = 1u64;
    let server_seed = generate_seed(12345);
    let server_seed_hash = hash_seed(&server_seed);

    client.create_round(round_id, server_seed_hash, NOW).unwrap();

    let result = client.create_round(round_id, server_seed_hash, NOW);
    assert_eq!(result.err(), Some(Error::RoundAlreadyExists));
}

#[test]
fn test_start_round() {
    let (_admin, mut client) = create_test_contract();

    let round_id = 1u64;
    let server_seed = generate_seed(12345);
    let server_seed_hash = hash_seed(&server_seed);
    let crash_multiplier = 250u64;

    client.create_round(round_id, server_seed_hash, NOW).unwrap();
    client.start_round(round_id, server_seed, crash_multiplier, NOW).unwrap();

    let round = client.get_round(round_id).unwrap();
    assert_eq!(round.status, RoundStatus::InProgress);
    assert_eq!(round.crash_multiplier, crash_multiplier);
    assert!(round.started_at > 0);
}

#[test]
fn test_start_round_wrong_seed() {
    let (_admin, mut client) = create_test_contract();

    let round_id = 1u64;
    let server_seed = generate_seed(12345);
    let server_seed_hash = hash_seed(&server_seed);
    let wrong_seed = generate_seed(99999);
    let crash_multiplier = 250u64;

    client.create_round(round_id, server_seed_hash, NOW).unwrap();

    let result = client.start_round(round_id, wrong_seed, crash_multiplier, NOW);
    assert_eq!(result.err(), Some(Error::InvalidServerSeedHash));
}

#[test]
fn test_start_round_invalid_multiplier() {
    let (_admin, mut client) = create_test_contract();

    let round_id = 1u64;
    let server_seed = generate_seed(12345);
    let server_seed_hash = hash_seed(&server_seed);
    let crash_multiplier = 50u64;

    client.create_round(round_id, server_seed_hash, NOW).unwrap();
    let result = client.start_round(round_id, server_seed, crash_multiplier, NOW);
    assert_eq!(result.err(), Some(Error::InvalidMultiplier));
}

#[test]
fn test_place_bet() {
    let (_admin, mut client) = create_test_contract();

    let round_id = 1u64;
    let server_seed_hash = hash_seed(&generate_seed(12345));
    client.create_round(round_id, server_seed_hash, NOW).unwrap();

    let player = player(1);
    let bet_amount = 100_000_000i128;
    let client_seed = generate_seed(111);

    let bet_id = client.place_bet(player.clone(), round_id, bet_amount, client_seed, NOW).unwrap();
    assert!(bet_id > 0);

    let bet = client.get_bet(bet_id).unwrap();
    assert_eq!(bet.player, player);
    assert_eq!(bet.amount, bet_amount);
    assert_eq!(bet.status, BetStatus::Active);
    assert_eq!(bet.round_id, round_id);

    let round = client.get_round(round_id).unwrap();
    assert_eq!(round.total_bet_amount, bet_amount);
    assert_eq!(round.bet_count, 1);

    let pool = client.get_pool();
    assert_eq!(pool.total_bets, bet_amount);
}

#[test]
fn test_place_bet_too_small() {
    let (_admin, mut client) = create_test_contract();

    let round_id = 1u64;
    let server_seed_hash = hash_seed(&generate_seed(12345));
    client.create_round(round_id, server_seed_hash, NOW).unwrap();

    let player = player(1);
    let bet_amount = 1_000_000i128;
    let client_seed = generate_seed(111);

    let result = client.place_bet(player, round_id, bet_amount, client_seed, NOW);
    assert_eq!(result.err(), Some(Error::InvalidBetAmount));
}

#[test]
fn test_place_bet_too_large() {
    let (_admin, mut client) = create_test_contract();

    let round_id = 1u64;
    let server_seed_hash = hash_seed(&generate_seed(12345));
    client.create_round(round_id, server_seed_hash, NOW).unwrap();

    let player = player(1);
    let bet_amount = 2_000_000_000_000i128;
    let client_seed = generate_seed(111);

    let result = client.place_bet(player, round_id, bet_amount, client_seed, NOW);
    assert_eq!(result.err(), Some(Error::InvalidBetAmount));
}

#[test]
fn test_place_bet_duplicate() {
    let (_admin, mut client) = create_test_contract();

    let round_id = 1u64;
    let server_seed_hash = hash_seed(&generate_seed(12345));
    client.create_round(round_id, server_seed_hash, NOW).unwrap();

    let player = player(1);
    let bet_amount = 100_000_000i128;
    let client_seed = generate_seed(111);

    client.place_bet(player.clone(), round_id, bet_amount, client_seed, NOW).unwrap();

    let result = client.place_bet(player, round_id, bet_amount, client_seed, NOW);
    assert_eq!(result.err(), Some(Error::BetAlreadyPlaced));
}

#[test]
fn test_place_bet_after_start() {
    let (_admin, mut client) = create_test_contract();

    let round_id = 1u64;
    let server_seed = generate_seed(12345);
    let server_seed_hash = hash_seed(&server_seed);
    client.create_round(round_id, server_seed_hash, NOW).unwrap();
    client.start_round(round_id, server_seed, 250, NOW).unwrap();

    let player = player(1);
    let bet_amount = 100_000_000i128;
    let client_seed = generate_seed(111);

    let result = client.place_bet(player, round_id, bet_amount, client_seed, NOW);
    assert_eq!(result.err(), Some(Error::InvalidRoundStatus));
}

#[test]
fn test_cash_out() {
    let (_admin, mut client) = create_test_contract();

    let round_id = 1u64;
    let server_seed = generate_seed(12345);
    let server_seed_hash = hash_seed(&server_seed);
    let crash_multiplier = 500u64;
    client.create_round(round_id, server_seed_hash, NOW).unwrap();

    let player = player(1);
    let bet_amount = 100_000_000i128;
    let client_seed = generate_seed(111);
    let bet_id = client.place_bet(player.clone(), round_id, bet_amount, client_seed, NOW).unwrap();

    client.start_round(round_id, server_seed, crash_multiplier, NOW).unwrap();

    let cash_out_multiplier = 200u64;
    let payout = client.cash_out(player, bet_id, cash_out_multiplier).unwrap();

    let expected_payout = 194_000_000i128;
    assert_eq!(payout, expected_payout);

    let bet = client.get_bet(bet_id).unwrap();
    assert_eq!(bet.status, BetStatus::CashedOut);
    assert_eq!(bet.cash_out_multiplier, cash_out_multiplier);
    assert_eq!(bet.payout, expected_payout);

    let pool = client.get_pool();
    assert_eq!(pool.total_payouts, expected_payout);
    assert_eq!(pool.total_house_earnings, 6_000_000i128);
}

#[test]
fn test_cash_out_after_crash() {
    let (_admin, mut client) = create_test_contract();

    let round_id = 1u64;
    let server_seed = generate_seed(12345);
    let server_seed_hash = hash_seed(&server_seed);
    let crash_multiplier = 200u64;
    client.create_round(round_id, server_seed_hash, NOW).unwrap();

    let player = player(1);
    let bet_amount = 100_000_000i128;
    let client_seed = generate_seed(111);
    let bet_id = client.place_bet(player.clone(), round_id, bet_amount, client_seed, NOW).unwrap();

    client.start_round(round_id, server_seed, crash_multiplier, NOW).unwrap();

    let result = client.cash_out(player, bet_id, 250);
    assert_eq!(result.err(), Some(Error::AlreadyCrashed));
}

#[test]
fn test_double_cash_out() {
    let (_admin, mut client) = create_test_contract();

    let round_id = 1u64;
    let server_seed = generate_seed(12345);
    let server_seed_hash = hash_seed(&server_seed);
    let crash_multiplier = 500u64;
    client.create_round(round_id, server_seed_hash, NOW).unwrap();

    let player = player(1);
    let bet_amount = 100_000_000i128;
    let client_seed = generate_seed(111);
    let bet_id = client.place_bet(player.clone(), round_id, bet_amount, client_seed, NOW).unwrap();

    client.start_round(round_id, server_seed, crash_multiplier, NOW).unwrap();

    client.cash_out(player.clone(), bet_id, 200).unwrap();

    let result = client.cash_out(player, bet_id, 300);
    assert_eq!(result.err(), Some(Error::BetNotActive));
}

#[test]
fn test_finalize_round() {
    let (_admin, mut client) = create_test_contract();

    let round_id = 1u64;
    let server_seed = generate_seed(12345);
    let server_seed_hash = hash_seed(&server_seed);
    client.create_round(round_id, server_seed_hash, NOW).unwrap();
    client.start_round(round_id, server_seed, 250, NOW).unwrap();

    client.finalize_round(round_id, NOW).unwrap();

    let round = client.get_round(round_id).unwrap();
    assert_eq!(round.status, RoundStatus::Ended);
    assert!(round.ended_at > 0);
}

#[test]
fn test_multiple_bets_same_round() {
    let (_admin, mut client) = create_test_contract();

    let round_id = 1u64;
    let server_seed_hash = hash_seed(&generate_seed(12345));
    client.create_round(round_id, server_seed_hash, NOW).unwrap();

    let bet1_amount = 100_000_000i128;
    client.place_bet(player(1), round_id, bet1_amount, generate_seed(111), NOW).unwrap();

    let bet2_amount = 200_000_000i128;
    client.place_bet(player(2), round_id, bet2_amount, generate_seed(222), NOW).unwrap();

    let bet3_amount = 300_000_000i128;
    client.place_bet(player(3), round_id, bet3_amount, generate_seed(333), NOW).unwrap();

    let round = client.get_round(round_id).unwrap();
    assert_eq!(round.bet_count, 3);
    assert_eq!(round.total_bet_amount, 600_000_000i128);
    assert_eq!(round.client_seeds.len(), 3);

    let pool = client.get_pool();
    assert_eq!(pool.total_bets, 600_000_000i128);
}

#[test]
fn test_client_seeds_collection() {
    let (_admin, mut client) = create_test_contract();

    let round_id = 1u64;
    let server_seed_hash = hash_seed(&generate_seed(12345));
    client.create_round(round_id, server_seed_hash, NOW).unwrap();

    for i in 0..5 {
        let bet_amount = 100_000_000i128;
        let client_seed = generate_seed(i);
        client.place_bet(player(i), round_id, bet_amount, client_seed, NOW).unwrap();
    }

    let round = client.get_round(round_id).unwrap();

    assert_eq!(round.client_seeds.len(), 3);
    assert_eq!(round.bet_count, 5);
}

#[test]
fn test_payout_calculation_accuracy() {
    let (_admin, mut client) = create_test_contract();

    let round_id = 1u64;
    let server_seed = generate_seed(12345);
    let server_seed_hash = hash_seed(&server_seed);
    client.create_round(round_id, server_seed_hash, NOW).unwrap();

    let player = player(1);
    let bet_amount = 500_000_000i128;
    let client_seed = generate_seed(111);
    let bet_id = client.place_bet(player.clone(), round_id, bet_amount, client_seed, NOW).unwrap();

    client.start_round(round_id, server_seed, 1000, NOW).unwrap();

    let payout = client.cash_out(player, bet_id, 350).unwrap();

    let expected_payout = 1_697_500_000i128;
    assert_eq!(payout, expected_payout);

    let pool = client.get_pool();
    assert_eq!(pool.total_house_earnings, 52_500_000i128);
}

#[test]
fn bet_id_is_derived_from_round_and_player() {
    let (_admin, mut client) = create_test_contract();
    client.create_round(7, hash_seed(&generate_seed(1)), NOW).unwrap();
    let who = player(9);
    let bet_id = client.place_bet(who.clone(), 7, 100_000_000, generate_seed(5), NOW).unwrap();
    assert_eq!(bet_id, generate_bet_id(7, &who));

    let mut key = 7u64.to_be_bytes().to_vec();
    key.extend_from_slice(&who);
    let env = soroban_sdk::Env::default();
    let digest = env.crypto().sha256(&soroban_sdk::Bytes::from_slice(&env, &key)).to_array();
    let mut expected = [0u8; 8];
    expected.copy_from_slice(&digest[..8]);
    assert_eq!(bet_id, u64::from_be_bytes(expected));
}
