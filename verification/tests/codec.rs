use ledger_core::tx::{Tx, TxCode, Error, SignedTxData, RawTx, EncryptionKey, VerifySigError};
use ledger_core::dkg::{Dkg, DkgGossipMessage};
use ledger_core::crypto::{sha256, keccak256, ed_pubkey_bytes, ed_sign_bytes, ed_verify_bytes};
use ledger_core::transaction::{TxType, WrapperTx, Fee, DecryptedTx, ProcessTxError, process_tx};
use ledger_core::token::{Transfer, deliver_tx_events};
use ledger_core::address::{Address, InternalAddress};
use ledger_core::strutil::u64_to_string;

fn sk() -> Vec<u8> {
    vec![7u8; 32]
}

#[test]
fn test_tx() {
    let code = "wasm code".as_bytes().to_owned();
    let data = "arbitrary data".as_bytes().to_owned();
    let tx = Tx::new(code.clone(), Some(data.clone()));

    let bytes = tx.to_bytes();
    let tx_from_bytes = Tx::try_from_bytes(&bytes).expect("decoding failed");
    assert_eq!(tx_from_bytes, tx);

    let raw = RawTx {
        code,
        is_code_hash: false,
        data: Some(data),
        timestamp: None,
        inner_tx: None,
        inner_tx_code: None,
    };
    let bytes = raw.encode();
    match Tx::try_from_bytes(&bytes) {
        Err(Error::NoTimestampError) => {}
        _ => panic!("unexpected result"),
    }
}

#[test]
fn test_dkg_gossip_message() {
    let data = "arbitrary string".to_owned();
    let dkg = Dkg::new(data);
    let message = DkgGossipMessage::new(dkg);

    let bytes = message.to_bytes();
    let message_from_bytes = DkgGossipMessage::try_from_bytes(&bytes).expect("decoding failed");
    assert_eq!(message_from_bytes, message);
}

#[test]
fn test_dkg() {
    let data = "arbitrary string".to_owned();
    let dkg = Dkg::new(data);

    let dkg_again = Dkg::new(dkg.data.clone());
    assert_eq!(dkg_again, dkg);
}

#[test]
fn decode_rejects_garbage() {
    let bytes = vec![1u8, 2, 3];
    match Tx::try_from_bytes(&bytes) {
        Err(Error::TxDecodingError) => {}
        _ => panic!("unexpected result"),
    }
}

#[test]
fn decode_rejects_out_of_range_timestamp() {
    let raw = RawTx {
        code: vec![1, 2, 3],
        is_code_hash: false,
        data: None,
        timestamp: Some((5, 2_000_000_000)),
        inner_tx: None,
        inner_tx_code: None,
    };
    let bytes = raw.encode();
    match Tx::try_from_bytes(&bytes) {
        Err(Error::InvalidTimestamp) => {}
        _ => panic!("unexpected result"),
    }
}

#[test]
fn dkg_message_without_payload_is_refused() {
    match DkgGossipMessage::try_from_bytes(&vec![0u8]) {
        Err(Error::NoDkgError) => {}
        _ => panic!("unexpected result"),
    }
    match DkgGossipMessage::try_from_bytes(&vec![5u8]) {
        Err(Error::DkgDecodingError) => {}
        _ => panic!("unexpected result"),
    }
}

#[test]
fn sha256_matches_known_vector() {
    let digest = sha256(&"abc".as_bytes().to_owned());
    let expected: Vec<u8> = vec![
        0xba, 0x78, 0x16, 0xbf, 0x8f, 0x01, 0xcf, 0xea, 0x41, 0x41, 0x40, 0xde, 0x5d, 0xae, 0x22,
        0x23, 0xb0, 0x03, 0x61, 0xa3, 0x96, 0x17, 0x7a, 0x9c, 0xb4, 0x10, 0xff, 0x61, 0xf2, 0x00,
        0x15, 0xad,
    ];
    assert_eq!(digest, expected);
}

#[test]
fn keccak256_matches_known_vector() {
    let digest = keccak256(&Vec::new());
    let expected: Vec<u8> = vec![
        0xc5, 0xd2, 0x46, 0x01, 0x86, 0xf7, 0x23, 0x3c, 0x92, 0x7e, 0x7d, 0xb2, 0xdc, 0xc7, 0x03,
        0xc0, 0xe5, 0x00, 0xb6, 0x53, 0xca, 0x82, 0x27, 0x3b, 0x7b, 0xfa, 0xd8, 0x04, 0x5d, 0x85,
        0xa4, 0x70,
    ];
    assert_eq!(digest, expected);
}

#[test]
fn ed25519_sign_then_verify() {
    let sk = sk();
    let pk = ed_pubkey_bytes(&sk);
    let msg = "a message".as_bytes().to_owned();
    let sig = ed_sign_bytes(&sk, &msg);
    assert!(ed_verify_bytes(&pk, &msg, &sig));
    let mut bad = sig.clone();
    bad[0] ^= 1;
    assert!(!ed_verify_bytes(&pk, &msg, &bad));
    let other = "another message".as_bytes().to_owned();
    assert!(!ed_verify_bytes(&pk, &other, &sig));
}

#[test]
fn signed_tx_verifies_under_its_key() {
    let sk = sk();
    let pk = ed_pubkey_bytes(&sk);
    let tx = Tx::new("code".as_bytes().to_owned(), Some("data".as_bytes().to_owned()));
    let signed = tx.sign(&sk);
    let sig = SignedTxData::decode(signed.data.as_ref().unwrap()).unwrap().sig;
    assert!(signed.verify_sig(&pk, &sig).is_ok());

    let unsigned = Tx::new("code".as_bytes().to_owned(), None);
    assert_eq!(unsigned.verify_sig(&pk, &sig), Err(VerifySigError::MissingData));
}

#[test]
fn partial_hash_ignores_inner_payloads() {
    let sk = sk();
    let tx = Tx::new("code".as_bytes().to_owned(), Some("data".as_bytes().to_owned()));
    let h1 = tx.partial_hash();
    let inner = Tx::new("inner".as_bytes().to_owned(), None);
    let key = EncryptionKey(vec![1, 2, 3]);
    let tx2 = tx.attach_inner_tx(&inner, &key);
    assert_eq!(tx2.partial_hash(), h1);
    let _ = sk;
}

#[test]
fn code_expansion_needs_the_right_code() {
    let mut code = TxCode::Literal("abc".as_bytes().to_owned());
    code.contract();
    assert!(code.is_hash());
    let mut wrong = match &code {
        TxCode::Hash(h) => TxCode::Hash(h.clone()),
        TxCode::Literal(_) => unreachable!(),
    };
    assert!(wrong.expand("abd".as_bytes().to_owned()).is_err());
    assert!(code.expand("abc".as_bytes().to_owned()).is_ok());
    assert!(code.is_literal());
}

#[test]
fn wrapper_with_wrong_key_is_rejected() {
    let sk = sk();
    let other_sk = vec![9u8; 32];
    let other_pk = ed_pubkey_bytes(&other_sk);
    let inner = Tx::new("code".as_bytes().to_owned(), None);
    let key = EncryptionKey(Vec::new());
    let w = WrapperTx::new(
        Fee { amount: 0, token: Address::Internal(InternalAddress::Nam) },
        other_pk,
        0,
        0,
        &inner,
        &key,
    );
    // signed with a key that is not the wrapper's own
    let outer = w.sign(&sk);
    assert!(matches!(process_tx(&outer), Err(ProcessTxError::InvalidSignature)));
}

#[test]
fn decimal_rendering() {
    assert_eq!(u64_to_string(0), "0".to_owned());
    assert_eq!(u64_to_string(1), "1".to_owned());
    assert_eq!(u64_to_string(1234), "1234".to_owned());
    assert_eq!(u64_to_string(u64::MAX), "18446744073709551615".to_owned());
}

#[test]
fn delivered_transfers_are_annotated() {
    let sk = sk();
    let transfer = Transfer {
        source: Address::Established(vec![1u8; 20]),
        target: Address::Established(vec![2u8; 20]),
        token: Address::Internal(InternalAddress::Nam),
        amount: 5,
    };
    let inner = Tx::new("code".as_bytes().to_owned(), Some(transfer.encode())).sign(&sk);
    let outer = Tx::new(
        Vec::new(),
        Some(TxType::Decrypted(DecryptedTx::Decrypted(inner)).encode()),
    );
    let events = deliver_tx_events(&outer);
    assert_eq!(events.len(), 1);
    assert_eq!(events[0].event_type, "Transfer".to_owned());
    assert_eq!(events[0].attributes[3], ("amount".to_owned(), "5".to_owned()));

    // a plain transaction emits nothing
    let raw = Tx::new("code".as_bytes().to_owned(), Some("data".as_bytes().to_owned()));
    assert_eq!(deliver_tx_events(&raw).len(), 0);
}
