use ledger_core::bridge_pool::{PendingTransfer, TransferToEthereum, GasFee, signature_checks,
    generate, sort_by_cost, recommend_batch, init_storage, apply_ethereum_event, bp_nonce_key,
    event_nonce_key, proof_relayable, total_fees, TRANSFER_FEE};
use ledger_core::address::{Address, InternalAddress};
use ledger_core::vote_ext::{EthereumEvent, TransferToNamada};
use ledger_core::voting::{WeightedValidator, FractionalVotingPower, sum_voting_powers,
    get_voting_powers_for_selected, sum_voting_powers_for_block_heights, VotingPowerError};
use ledger_core::storage::Store;
use ledger_core::governance::{balance_key, read_amount, transfer};
use ledger_core::ibc::is_ibc_denom;

fn bertha_address() -> Address {
    Address::Established(vec![3u8; 20])
}

/// Generate a pending transfer with the specified gas fee.
fn transfer_with_fee(gas_amount: u64) -> PendingTransfer {
    PendingTransfer {
        transfer: TransferToEthereum {
            asset: vec![1u8; 20],
            recipient: vec![2u8; 20],
            sender: bertha_address(),
            amount: 0,
        },
        gas_fee: GasFee { amount: gas_amount, payer: bertha_address() },
    }
}

/// Convert transfers into the form the recommender understands.
fn process_transfers(transfers: Vec<PendingTransfer>) -> Vec<(String, i64, PendingTransfer)> {
    let mut out = vec![];
    for t in transfers {
        let hash = t.keccak256_hex();
        let cost = TRANSFER_FEE - (t.gas_fee.amount as i64);
        out.push((hash, cost, t));
    }
    out
}

fn address_book(i: u8) -> Vec<u8> {
    vec![i; 40]
}

#[test]
fn test_signature_count() {
    let voting_powers = vec![
        (address_book(1), 5u64),
        (address_book(2), 1u64),
        (address_book(3), 1u64),
    ];
    let signatures = vec![address_book(1), address_book(2), address_book(3)];
    let checks = signature_checks(&voting_powers, &signatures);
    assert_eq!(checks, 1)
}

#[test]
fn test_signature_count_with_skips() {
    let voting_powers = vec![
        (address_book(1), 5u64),
        (address_book(2), 5u64),
        (address_book(3), 1u64),
        (address_book(4), 1u64),
    ];
    let signatures = vec![address_book(1), address_book(3), address_book(4)];
    let checks = signature_checks(&voting_powers, &signatures);
    assert_eq!(checks, 3)
}

#[test]
fn test_only_profitable() {
    let profitable = vec![transfer_with_fee(100_000); 17];
    let hash = profitable[0].keccak256_hex();
    let expected = vec![hash; 17];
    let recommendation = generate(&process_transfers(profitable), 800_000, u64::MAX, 0)
        .expect("Test failed");
    assert_eq!(recommendation, expected);
}

#[test]
fn test_non_profitable_removed() {
    let mut transfers = vec![transfer_with_fee(100_000); 17];
    let hash = transfers[0].keccak256_hex();
    transfers.push(transfer_with_fee(0));
    let expected: Vec<_> = vec![hash; 17];
    let recommendation = generate(&process_transfers(transfers), 800_000, u64::MAX, 0)
        .expect("Test failed");
    assert_eq!(recommendation, expected);
}

#[test]
fn test_max_gas() {
    let transfers = vec![transfer_with_fee(75_000); 4];
    let hash = transfers[0].keccak256_hex();
    let expected = vec![hash; 2];
    let recommendation = generate(&process_transfers(transfers), 50_000, 150_000, i64::MAX)
        .expect("Test failed");
    assert_eq!(recommendation, expected);
}

#[test]
fn test_net_loss() {
    let mut transfers = vec![transfer_with_fee(75_000); 4];
    transfers.extend([transfer_with_fee(17_500), transfer_with_fee(17_500)]);
    let mut expected: Vec<String> = vec![];
    for t in transfers.iter().take(5) {
        expected.push(t.keccak256_hex());
    }
    let recommendation = generate(&process_transfers(transfers), 150_000, u64::MAX, 20_000)
        .expect("Test failed");
    assert_eq!(recommendation, expected);
}

#[test]
fn test_net_loss_max_gas() {
    let mut transfers = vec![transfer_with_fee(75_000); 4];
    let hash = transfers[0].keccak256_hex();
    let expected = vec![hash; 4];
    transfers.extend([transfer_with_fee(17_500), transfer_with_fee(17_500)]);
    let recommendation = generate(&process_transfers(transfers), 150_000, 330_000, 20_000)
        .expect("Test failed");
    assert_eq!(recommendation, expected);
}

#[test]
fn test_wholly_infeasible() {
    let transfers = vec![transfer_with_fee(75_000); 4];
    let recommendation = generate(&process_transfers(transfers), 300_000, u64::MAX, 20_000);
    assert!(recommendation.is_none())
}

#[test]
fn recommend_batch_composes_the_whole_pipeline() {
    // one validator holding all power signed the root; the pool holds one
    // profitable transfer and one already being relayed
    let pool = vec![transfer_with_fee(100_000), transfer_with_fee(90_000)];
    let in_progress = vec![transfer_with_fee(90_000)];
    let voting_powers = vec![(address_book(1), 5u64)];
    let sigs = vec![address_book(1)];
    let r = recommend_batch(&pool, &in_progress, &voting_powers, &sigs, 1, u64::MAX, 0)
        .expect("Test failed");
    assert_eq!(r, vec![pool[0].keccak256_hex()]);
}

#[test]
fn sorting_is_by_ascending_cost() {
    let items = vec![
        ("b".to_owned(), 5i64, transfer_with_fee(1)),
        ("a".to_owned(), -3i64, transfer_with_fee(2)),
        ("c".to_owned(), 5i64, transfer_with_fee(3)),
    ];
    let sorted = sort_by_cost(items);
    assert_eq!(sorted[0].0, "a".to_owned());
    assert_eq!(sorted[1].0, "b".to_owned());
    assert_eq!(sorted[2].0, "c".to_owned());
}

#[test]
fn test_get_voting_powers_for_selected_sole_validator() {
    let sole_validator = Address::Established(vec![1u8; 20]);
    let bonded_stake = 100u64;
    let weighted_sole_validator = WeightedValidator {
        bonded_stake,
        address: sole_validator.clone(),
    };
    let validators = vec![(sole_validator.clone(), 100u64)];
    let consensus_validators = vec![(100u64, vec![weighted_sole_validator])];

    let result = get_voting_powers_for_selected(&consensus_validators, &validators);
    let voting_powers = match result {
        Ok(voting_powers) => voting_powers,
        Err(error) => panic!("error: {:?}", error),
    };
    assert_eq!(voting_powers.len(), 1);
    assert!(voting_powers[0].1 == FractionalVotingPower::new(1, 1).unwrap());
}

#[test]
fn test_get_voting_powers_for_selected_missing_validator() {
    let present_validator = Address::Established(vec![1u8; 20]);
    let missing_validator = Address::Established(vec![2u8; 20]);
    let bonded_stake = 100u64;
    let weighted_present_validator = WeightedValidator {
        bonded_stake,
        address: present_validator.clone(),
    };
    let validators = vec![(present_validator, 100u64), (missing_validator, 100u64)];
    let consensus_validators = vec![(100u64, vec![weighted_present_validator])];

    let result = get_voting_powers_for_selected(&consensus_validators, &validators);
    assert!(result.is_err());
}

#[test]
fn test_get_voting_powers_for_selected_no_consensus_validators_for_height() {
    let all_consensus: Vec<(u64, Vec<WeightedValidator>)> = vec![];
    let selected = vec![(Address::Established(vec![1u8; 20]), 100u64)];

    let result = get_voting_powers_for_selected(&all_consensus, &selected);
    assert!(result.is_err());
}

#[test]
fn test_get_voting_powers_for_selected_two_validators() {
    let validator_1 = Address::Established(vec![1u8; 20]);
    let validator_2 = Address::Established(vec![2u8; 20]);
    let bonded_stake_1 = 100u64;
    let bonded_stake_2 = 200u64;
    let weighted_validator_1 = WeightedValidator {
        bonded_stake: bonded_stake_1,
        address: validator_1.clone(),
    };
    let weighted_validator_2 = WeightedValidator {
        bonded_stake: bonded_stake_2,
        address: validator_2.clone(),
    };
    let validators = vec![(validator_1.clone(), 100u64), (validator_2.clone(), 100u64)];
    let consensus_validators = vec![
        (100u64, vec![weighted_validator_1, weighted_validator_2]),
    ];

    let result = get_voting_powers_for_selected(&consensus_validators, &validators);
    let voting_powers = match result {
        Ok(voting_powers) => voting_powers,
        Err(error) => panic!("error: {:?}", error),
    };
    assert_eq!(voting_powers.len(), 2);
    assert!(voting_powers[0].1 == FractionalVotingPower::new(100, 300).unwrap());
    assert!(voting_powers[1].1 == FractionalVotingPower::new(200, 300).unwrap());
}

#[test]
fn test_sum_voting_powers_sole_validator() {
    let sole_validator = Address::Established(vec![1u8; 20]);
    let bonded_stake = 100u64;
    let weighted_sole_validator = WeightedValidator {
        bonded_stake,
        address: sole_validator,
    };
    let validators = vec![weighted_sole_validator];

    let total = sum_voting_powers(&validators);
    assert_eq!(total, bonded_stake);
}

#[test]
fn test_sum_voting_powers_two_validators() {
    let validator_1 = Address::Established(vec![1u8; 20]);
    let validator_2 = Address::Established(vec![2u8; 20]);
    let bonded_stake_1 = 100u64;
    let bonded_stake_2 = 200u64;
    let weighted_validator_1 = WeightedValidator {
        bonded_stake: bonded_stake_1,
        address: validator_1,
    };
    let weighted_validator_2 = WeightedValidator {
        bonded_stake: bonded_stake_2,
        address: validator_2,
    };
    let validators = vec![weighted_validator_1, weighted_validator_2];

    let total = sum_voting_powers(&validators);
    assert_eq!(total, 300u64);
}

#[test]
fn totals_per_height() {
    let vs = vec![
        (7u64, vec![
            WeightedValidator { bonded_stake: 100, address: Address::Established(vec![1; 20]) },
            WeightedValidator { bonded_stake: 200, address: Address::Established(vec![2; 20]) },
        ]),
        (8u64, vec![]),
    ];
    let totals = sum_voting_powers_for_block_heights(&vs);
    assert_eq!(totals, vec![(7u64, 300u64), (8u64, 0u64)]);
}

#[test]
fn fraction_errors() {
    assert!(matches!(
        FractionalVotingPower::new(1, 0),
        Err(VotingPowerError::ZeroDenominator)
    ));
    assert!(matches!(
        FractionalVotingPower::new(2, 1),
        Err(VotingPowerError::GreaterThanOne)
    ));
}

#[test]
fn bridge_pool_storage_starts_at_zero() {
    let mut store = Store::new();
    init_storage(&mut store);
    let nam = Address::Internal(InternalAddress::Nam);
    let pool = Address::Internal(InternalAddress::BridgePool);
    assert_eq!(read_amount(&store, &balance_key(&nam, &pool)), 0);
    assert_eq!(read_amount(&store, &bp_nonce_key()), 0);
}

#[test]
fn stale_event_nonces_are_a_noop() {
    let mut store = Store::new();
    let receiver = bertha_address();
    let ev = EthereumEvent::TransfersToNamada {
        nonce: 5,
        transfers: vec![TransferToNamada { amount: 10, asset: vec![1u8; 20], receiver }],
    };
    apply_ethereum_event(&mut store, &ev);
    assert_eq!(read_amount(&store, &event_nonce_key(&ev)), 5);
    let wrapped = Address::Established(vec![1u8; 20]);
    let bal_key = balance_key(&wrapped, &bertha_address());
    assert_eq!(read_amount(&store, &bal_key), 10);

    // replaying the same event leaves the state untouched
    let snapshot = store.entries.clone();
    apply_ethereum_event(&mut store, &ev);
    assert_eq!(store.entries, snapshot);

    // and so does any event with a nonce at or below the stored one
    let stale = EthereumEvent::TransfersToNamada { nonce: 4, transfers: vec![] };
    apply_ethereum_event(&mut store, &stale);
    assert_eq!(store.entries, snapshot);
}

#[test]
fn transfers_move_funds() {
    let mut store = Store::new();
    let nam = Address::Internal(InternalAddress::Nam);
    let a = Address::Established(vec![1u8; 20]);
    let b = Address::Established(vec![2u8; 20]);
    store.write(&balance_key(&nam, &a), vec![0; 8]);
    let mut seed = vec![0u8; 8];
    seed[0] = 100;
    store.write(&balance_key(&nam, &a), seed);
    transfer(&mut store, &nam, 30, &a, &b);
    assert_eq!(read_amount(&store, &balance_key(&nam, &a)), 70);
    assert_eq!(read_amount(&store, &balance_key(&nam, &b)), 30);
}

#[test]
fn denominations_split_after_their_port_and_channel_hops() {
    let r = is_ibc_denom("transfer/channel-0/uatom");
    let (tp, base) = r.expect("Test failed");
    assert_eq!(tp.path, "transfer/channel-0".as_bytes().to_owned());
    assert_eq!(base, "uatom".as_bytes().to_owned());

    // two hops; the base may itself contain separators
    let r = is_ibc_denom("transfer/channel-0/transfer/channel-17/gravity/denom");
    let (tp, base) = r.expect("Test failed");
    assert_eq!(tp.path, "transfer/channel-0/transfer/channel-17".as_bytes().to_owned());
    assert_eq!(base, "gravity/denom".as_bytes().to_owned());

    // no path, a malformed channel hop, or a missing base token
    assert!(is_ibc_denom("uatom").is_none());
    assert!(is_ibc_denom("foo/bar/baz").is_none());
    assert!(is_ibc_denom("transfer/channel-x/uatom").is_none());
    assert!(is_ibc_denom("transfer/channel-0").is_none());
    assert!(is_ibc_denom("transfer/channel-0/").is_none());
}

#[test]
fn replaying_a_block_of_events_changes_nothing() {
    // applying the same batch of confirmed events twice to the same start
    // state yields the identical end state
    let mut store = Store::new();
    init_storage(&mut store);
    let batch = vec![
        EthereumEvent::TransfersToNamada {
            nonce: 1,
            transfers: vec![TransferToNamada {
                amount: 7,
                asset: vec![1u8; 20],
                receiver: bertha_address(),
            }],
        },
        EthereumEvent::ValidatorSetUpdate { nonce: 3 },
    ];
    for ev in &batch {
        apply_ethereum_event(&mut store, ev);
    }
    let once = store.entries.clone();
    for ev in &batch {
        apply_ethereum_event(&mut store, ev);
    }
    assert_eq!(store.entries, once);
}

#[test]
fn batch_nonces_must_be_strictly_monotonic() {
    assert!(proof_relayable(3, 2));
    assert!(!proof_relayable(2, 2));
    assert!(!proof_relayable(1, 2));
}

#[test]
fn proof_fees_add_up() {
    assert_eq!(total_fees(&vec![1, 2, 3]), 6);
    assert_eq!(total_fees(&Vec::new()), 0);
}
