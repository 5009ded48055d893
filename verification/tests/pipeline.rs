use ledger_core::tx::{Tx, SignedTxData, EncryptionKey};
use ledger_core::transaction::{TxType, WrapperTx, Fee, DecryptedTx, ProtocolTx};
use ledger_core::shell::{ShellState, TxAction, PrepareError, remove};
use ledger_core::queue::TxQueue;
use ledger_core::vote_ext::{Vext, SignedVext, EthereumEvent, MultiSignedEthEvent, VextDigest};
use ledger_core::address::{Address, InternalAddress};
use ledger_core::voting::{WeightedValidator, FractionalVotingPower};
use ledger_core::crypto::ed_pubkey_bytes;
use ledger_core::storage::Store;
use ledger_core::governance::{execute_governance_proposals, gov_key, write_amount, balance_key,
    read_amount, Event, event_value_eq, GOV_FUNDS, GOV_END_EPOCH};
use ledger_core::sdk::{known_validator_or_err, token_exists_or_err, source_exists_or_err,
    target_exists_or_err, check_balance_too_low_err, SdkError};

fn sk() -> Vec<u8> {
    vec![7u8; 32]
}

fn addr(i: u8) -> Address {
    Address::Established(vec![i; 20])
}

fn shell(last_height: u64, stake: u64) -> ShellState {
    let sk = sk();
    let pk = ed_pubkey_bytes(&sk);
    ShellState {
        last_height,
        epoch: 0,
        validator_set: vec![WeightedValidator { bonded_stake: stake, address: addr(1) }],
        validator_pks: vec![(addr(1), pk)],
        tx_queue: TxQueue::new(),
        protocol_sk: Some(sk),
    }
}

fn empty_event() -> EthereumEvent {
    EthereumEvent::TransfersToNamada { nonce: 1, transfers: vec![] }
}

fn sign_ext(height: u64, who: u8, key: &Vec<u8>, events: Vec<EthereumEvent>) -> SignedVext {
    let ext = Vext { validator_addr: addr(who), block_height: height, ethereum_events: events };
    SignedVext::sign(ext, key)
}

#[test]
fn test_prepare_proposal_rejects_non_wrapper_tx() {
    let shell = shell(0, 100);
    let tx = Tx::new(
        "wasm_code".as_bytes().to_owned(),
        Some("transaction_data".as_bytes().to_owned()),
    );
    let txs = vec![tx.to_bytes()];
    let records = shell.prepare_proposal(&txs, None).expect("Test failed");
    assert_eq!(records, vec![remove(tx.to_bytes())]);
}

#[test]
fn test_prepare_proposal_filter_out_bad_vext_signatures() {
    let shell = shell(2, 100);
    let mut ext = sign_ext(2, 1, &sk(), vec![]);
    assert!(shell.is_valid_svext(&ext));
    // invalidate the signature
    ext.sig[0] ^= 1;
    let filtered = shell.filter_invalid_eth_events_vexts(&vec![ext]);
    assert_eq!(filtered.len(), 0);
}

#[test]
fn test_prepare_proposal_filter_out_bad_vext_bheights() {
    let shell = shell(3, 100);
    let ext = sign_ext(2, 1, &sk(), vec![]);
    let filtered = shell.filter_invalid_eth_events_vexts(&vec![ext]);
    assert_eq!(filtered.len(), 0);
}

#[test]
fn test_prepare_proposal_filter_out_bad_vext_validators() {
    let shell = shell(2, 100);
    // a node outside the validator set signs an extension
    let bertha_key = vec![9u8; 32];
    let ext = sign_ext(2, 2, &bertha_key, vec![]);
    let filtered = shell.filter_invalid_eth_events_vexts(&vec![ext]);
    assert_eq!(filtered.len(), 0);
}

#[test]
fn test_prepare_proposal_filter_duped_ethereum_events() {
    let shell = shell(3, 100);
    let ev = empty_event();
    let ext = sign_ext(3, 1, &sk(), vec![ev.clone(), ev.clone(), ev]);
    let maybe_digest = shell.compress_ethereum_events(vec![ext]);
    assert!(maybe_digest.is_none());
}

#[test]
fn test_prepare_proposal_vext_normal_op() {
    let shell = shell(3, 100);
    let ext = sign_ext(3, 1, &sk(), vec![empty_event()]);
    let txs: Vec<Vec<u8>> = vec![];
    let records = shell.prepare_proposal(&txs, Some(vec![ext.clone()])).expect("Test failed");
    assert_eq!(records.len(), 1);
    assert_eq!(records[0].action, TxAction::Added);

    let got = Tx::try_from_bytes(&records[0].tx).expect("Test failed");
    let signed = SignedTxData::decode(got.data.as_ref().expect("Test failed")).expect(
        "Test failed",
    );
    let payload = signed.data.expect("Test failed");

    let digest = VextDigest {
        events: vec![MultiSignedEthEvent { event: empty_event(), signers: vec![addr(1)] }],
        signatures: vec![(addr(1), ext.sig.clone())],
    };
    let expected = TxType::Protocol(ProtocolTx { pk: ed_pubkey_bytes(&sk()), digest }).encode();
    assert_eq!(payload, expected);
}

#[test]
fn quorum_violation_is_a_typed_fatal_error() {
    // a single validator with zero stake cannot reach the two-thirds bound
    let shell = shell(11, 0);
    let ext = sign_ext(11, 1, &sk(), vec![empty_event()]);
    let txs: Vec<Vec<u8>> = vec![];
    let r = shell.prepare_proposal(&txs, Some(vec![ext]));
    assert_eq!(r, Err(PrepareError::QuorumNotReached));
}

#[test]
fn missing_vote_extensions_are_a_typed_error() {
    let shell = shell(5, 100);
    let txs: Vec<Vec<u8>> = vec![];
    let r = shell.prepare_proposal(&txs, None);
    assert_eq!(r, Err(PrepareError::MissingVoteExtensions));
}

#[test]
fn test_error_in_processing_tx() {
    let shell = shell(0, 100);
    let keypair = sk();
    let tx = Tx::new(
        "wasm_code".as_bytes().to_owned(),
        Some("transaction_data".as_bytes().to_owned()),
    );
    // an unsigned wrapper will cause an error in processing
    let w = WrapperTx::new(
        Fee { amount: 0, token: Address::Internal(InternalAddress::Nam) },
        ed_pubkey_bytes(&keypair),
        0,
        0,
        &tx,
        &EncryptionKey(Vec::new()),
    );
    let wrapper = Tx::new(Vec::new(), Some(w.encode())).to_bytes();
    let txs = vec![wrapper.clone()];
    let records = shell.prepare_proposal(&txs, None).expect("Test failed");
    assert_eq!(records, vec![remove(wrapper)]);
}

#[test]
fn test_decrypted_txs_in_correct_order() {
    let keypair = sk();
    let mut shell = shell(0, 100);
    let mut expected_wrapper = vec![];
    let mut expected_decrypted = vec![];
    let mut req_txs: Vec<Vec<u8>> = vec![];
    for i in 0..2u8 {
        let tx = Tx::new(
            "wasm_code".as_bytes().to_owned(),
            Some(format!("transaction data: {}", i).as_bytes().to_owned()),
        );
        expected_decrypted.push(TxType::Decrypted(DecryptedTx::Decrypted(tx.clone())).encode());
        let wrapper_tx = WrapperTx::new(
            Fee { amount: 0, token: Address::Internal(InternalAddress::Nam) },
            ed_pubkey_bytes(&keypair),
            0,
            0,
            &tx,
            &EncryptionKey(Vec::new()),
        );
        let wrapper = wrapper_tx.sign(&keypair);
        shell.tx_queue.push(wrapper_tx);
        expected_wrapper.push(wrapper.data.clone().expect("Test failed"));
        req_txs.push(wrapper.to_bytes());
    }
    expected_wrapper.append(&mut expected_decrypted);
    let expected_txs = expected_wrapper;

    let records = shell.prepare_proposal(&req_txs, None).expect("Test failed");
    let mut received: Vec<Vec<u8>> = vec![];
    for rec in &records {
        if rec.action == TxAction::Unmodified || rec.action == TxAction::Added {
            received.push(
                Tx::try_from_bytes(&rec.tx).expect("Test failed").data.expect("Test failed"),
            );
        }
    }
    assert_eq!(received, expected_txs);
}

#[test]
fn noop_block_produces_nothing() {
    // a non-validator node proposes nothing, and an empty boundary emits
    // no events
    let non_validator = ShellState {
        last_height: 5,
        epoch: 1,
        validator_set: vec![],
        validator_pks: vec![],
        tx_queue: TxQueue::new(),
        protocol_sk: None,
    };
    let txs: Vec<Vec<u8>> = vec![];
    let records = non_validator.prepare_proposal(&txs, None).expect("Test failed");
    assert_eq!(records.len(), 0);

    let mut store = Store::new();
    let mut events: Vec<Event> = vec![];
    let threshold = FractionalVotingPower::new(1, 3).expect("Test failed");
    let result = execute_governance_proposals(
        &mut store,
        &vec![],
        &threshold,
        vec![],
        &vec![],
        &mut events,
    );
    assert!(result.passed.is_empty());
    assert!(result.rejected.is_empty());
    assert!(events.is_empty());
}

#[test]
fn test_no_governance_proposals() {
    let mut store = Store::new();
    let mut events: Vec<Event> = vec![];
    let threshold = FractionalVotingPower::new(1, 3).expect("Test failed");
    let validators = vec![WeightedValidator { bonded_stake: 10_000_000, address: addr(1) }];
    let proposals_result = execute_governance_proposals(
        &mut store,
        &validators,
        &threshold,
        vec![],
        &vec![],
        &mut events,
    );
    assert!(proposals_result.passed.is_empty());
    assert!(proposals_result.rejected.is_empty());
    assert!(events.is_empty());
}

#[test]
fn test_reject_single_governance_proposal() {
    let mut store = Store::new();
    // set up validators in storage (no delegations yet)
    let validators = vec![WeightedValidator { bonded_stake: 10_000_000, address: addr(1) }];

    // set up a proposal in storage
    let proposal_id = 1u64;
    let funds_key = gov_key(GOV_FUNDS, proposal_id);
    write_amount(&mut store, &funds_key, 100_000_000);
    let end_epoch_key = gov_key(GOV_END_EPOCH, proposal_id);
    write_amount(&mut store, &end_epoch_key, 9);
    // the locked funds sit in the governance account's escrow
    let nam = Address::Internal(InternalAddress::Nam);
    let gov = Address::Internal(InternalAddress::Governance);
    let slash_fund = Address::Internal(InternalAddress::SlashFund);
    write_amount(&mut store, &balance_key(&nam, &gov), 100_000_000);

    let mut events: Vec<Event> = vec![];
    let threshold = FractionalVotingPower::new(1, 3).expect("Test failed");
    let proposals_result = execute_governance_proposals(
        &mut store,
        &validators,
        &threshold,
        vec![proposal_id],
        &vec![],
        &mut events,
    );

    assert!(proposals_result.passed.is_empty());
    assert_eq!(proposals_result.rejected, vec![proposal_id]);
    assert_eq!(events.len(), 1);
    let expected = Event {
        event_type: "Proposal".to_owned(),
        level: "Block".to_owned(),
        attributes: vec![
            ("proposal_id".to_owned(), proposal_id.to_string()),
            ("has_proposal_code".to_owned(), (true as u64).to_string()),
            ("tally_result".to_owned(), "Rejected".to_owned()),
            ("proposal_code_exit_status".to_owned(), (true as u64).to_string()),
        ],
    };
    assert!(event_value_eq(&events[0], &expected));
    // the locked funds moved from the governance account to the slash fund
    assert_eq!(read_amount(&store, &balance_key(&nam, &gov)), 0);
    assert_eq!(read_amount(&store, &balance_key(&nam, &slash_fund)), 100_000_000);
}

#[test]
fn missing_mandatory_fields_fail_the_tally() {
    // a proposal without its funds key fails, its event is still emitted,
    // and processing goes on to the next id
    let mut store = Store::new();
    let funds_key = gov_key(GOV_FUNDS, 7);
    write_amount(&mut store, &funds_key, 5);
    let end_epoch_key = gov_key(GOV_END_EPOCH, 7);
    write_amount(&mut store, &end_epoch_key, 9);
    let mut events: Vec<Event> = vec![];
    let threshold = FractionalVotingPower::new(1, 3).expect("Test failed");
    let validators = vec![WeightedValidator { bonded_stake: 10, address: addr(1) }];
    let r = execute_governance_proposals(
        &mut store,
        &validators,
        &threshold,
        vec![42, 7],
        &vec![],
        &mut events,
    );
    assert!(r.passed.is_empty());
    assert_eq!(r.rejected, vec![7]);
    assert_eq!(events.len(), 2);
    let failed = Event {
        event_type: "Proposal".to_owned(),
        level: "Block".to_owned(),
        attributes: vec![
            ("proposal_id".to_owned(), "42".to_owned()),
            ("has_proposal_code".to_owned(), "1".to_owned()),
            ("tally_result".to_owned(), "Failed".to_owned()),
            ("proposal_code_exit_status".to_owned(), "1".to_owned()),
        ],
    };
    assert!(event_value_eq(&events[0], &failed));
}

#[test]
fn submission_checks_follow_the_chain_answers() {
    let a = addr(4);
    assert!(known_validator_or_err(a.clone(), false, true).is_ok());
    assert!(matches!(
        known_validator_or_err(a.clone(), false, false),
        Err(SdkError::InvalidValidatorAddress(_))
    ));
    assert!(known_validator_or_err(a.clone(), true, false).is_ok());
    assert!(matches!(
        token_exists_or_err(a.clone(), false, false),
        Err(SdkError::TokenDoesNotExist(_))
    ));
    assert!(matches!(
        source_exists_or_err(a.clone(), false, false),
        Err(SdkError::SourceDoesNotExist(_))
    ));
    assert!(matches!(
        target_exists_or_err(a.clone(), false, false),
        Err(SdkError::TargetLocationDoesNotExist(_))
    ));
    let nam = Address::Internal(InternalAddress::Nam);
    assert!(check_balance_too_low_err(nam.clone(), a.clone(), 10, Some(10), false).is_ok());
    assert!(matches!(
        check_balance_too_low_err(nam.clone(), a.clone(), 11, Some(10), false),
        Err(SdkError::BalanceTooLow(_, _, 11, 10))
    ));
    assert!(check_balance_too_low_err(nam.clone(), a.clone(), 11, Some(10), true).is_ok());
    assert!(matches!(
        check_balance_too_low_err(nam, a, 1, None, false),
        Err(SdkError::NoBalanceForToken(_, _))
    ));
}
