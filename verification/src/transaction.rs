//! Transaction kinds: raw, wrapper, decrypted and protocol transactions.
//!
//! A wrapper carries fee and gas metadata and a sealed inner payload,
//! committed to by hash; the cleartext runs in the next block as a
//! decrypted transaction. A protocol transaction carries a vote-extension
//! digest. `process_tx` classifies a transaction and rejects a wrapper or
//! protocol transaction whose signature does not verify.

use vstd::prelude::*;
use crate::bytes::{enc_le, enc_bytes, enc_opt_bytes, sdec_u64, sdec_bytes,
    sdec_opt_bytes, view_opt, pow256, lemma_pow256_8, lemma_sdec_u64_enc, lemma_sdec_bytes_enc,
    lemma_sdec_opt_bytes_enc, lemma_enc_le_len, write_u64, write_bytes, write_opt_bytes, read_u8,
    read_u64, read_bytes, read_opt_bytes, bytes_eq};
use crate::address::{Address, AddressV, enc_address, sdec_address, wf_address,
    lemma_address_round_trip, lemma_address_enc_len, copy_address};
use crate::tx::{Tx, TxV, enc_tx, sdec_raw_tx, tx_of_wire, wire_of_tx, lemma_raw_tx_round_trip, SignedTxData, sdec_signed, partial_hash_of, copy_bytes,
    copy_opt_bytes, EncryptionKey};
use crate::vote_ext::{VextDigest, VextDigestV, enc_digest, sdec_digest, wf_digest,
    lemma_digest_round_trip, lemma_digest_enc_len};
use crate::crypto::{sha256, sha256_of, ed_verify, ed_verify_bytes};

verus! {

/// Why a transaction was not classified.
#[derive(Clone, Copy, Debug, PartialEq, Eq, Structural)]
pub enum ProcessTxError {
    /// The data field is not a canonical transaction-kind payload.
    InvalidFormat,
    /// A wrapper or protocol signature does not verify.
    InvalidSignature,
}

/// The fee a wrapper pays: an amount of a token.
#[derive(Clone, Debug)]
pub struct Fee {
    pub amount: u64,
    pub token: Address,
}

/// A wrapper transaction's metadata and sealed payload.
#[derive(Clone, Debug)]
pub struct WrapperTx {
    /// The fee to be paid for inclusion.
    pub fee: Fee,
    /// The payer's public key, which also signs the wrapper.
    pub pk: Vec<u8>,
    /// The epoch the wrapper was built for.
    pub epoch: u64,
    /// The gas limit of the inner transaction.
    pub gas_limit: u64,
    /// The sealed inner transaction.
    pub inner_tx: Vec<u8>,
    /// The hash committing to the sealed payload.
    pub tx_hash: Vec<u8>,
    /// An optional bound shielded-unshielding proof for the fee.
    pub unshield: Option<Vec<u8>>,
}

/// The mathematical value of a wrapper.
pub struct WrapperTxV {
    pub fee_amount: u64,
    pub fee_token: AddressV,
    pub pk: Seq<u8>,
    pub epoch: u64,
    pub gas_limit: u64,
    pub inner_tx: Seq<u8>,
    pub tx_hash: Seq<u8>,
    pub unshield: Option<Seq<u8>>,
}

impl View for WrapperTx {
    type V = WrapperTxV;

    open spec fn view(&self) -> WrapperTxV {
        WrapperTxV {
            fee_amount: self.fee.amount,
            fee_token: self.fee.token@,
            pk: self.pk@,
            epoch: self.epoch,
            gas_limit: self.gas_limit,
            inner_tx: self.inner_tx@,
            tx_hash: self.tx_hash@,
            unshield: view_opt(self.unshield),
        }
    }
}

/// The canonical encoding of a wrapper, as a whole buffer.
pub open spec fn enc_wrapper(w: WrapperTxV) -> Seq<u8> {
    enc_le(w.fee_amount as nat, 8) + enc_bytes(enc_address(w.fee_token)) + enc_bytes(w.pk)
        + enc_le(w.epoch as nat, 8) + enc_le(w.gas_limit as nat, 8) + enc_bytes(w.inner_tx)
        + enc_bytes(w.tx_hash) + enc_opt_bytes(w.unshield)
}

/// Spec reader for a whole wrapper buffer.
pub open spec fn sdec_wrapper(s: Seq<u8>) -> Option<WrapperTxV> {
    if sdec_u64(s) is None {
        None
    } else {
        let (fee_amount, _) = sdec_u64(s)->Some_0;
        if sdec_bytes(s.skip(8)) is None {
            None
        } else {
            let (ab, i1) = sdec_bytes(s.skip(8))->Some_0;
            if sdec_address(ab) is None {
                None
            } else {
                if sdec_bytes(s.skip(8 + i1)) is None {
                    None
                } else {
                    let (pk, i2) = sdec_bytes(s.skip(8 + i1))->Some_0;
                    let p = 8 + i1 + i2;
                    if sdec_u64(s.skip(p)) is None || sdec_u64(s.skip(p + 8)) is None {
                        None
                    } else {
                        let (epoch, _) = sdec_u64(s.skip(p))->Some_0;
                        let (gas_limit, _) = sdec_u64(s.skip(p + 8))->Some_0;
                        if sdec_bytes(s.skip(p + 16)) is None {
                            None
                        } else {
                            let (inner_tx, i3) = sdec_bytes(s.skip(p + 16))->Some_0;
                            if sdec_bytes(s.skip(p + 16 + i3)) is None {
                                None
                            } else {
                                let (tx_hash, i4) = sdec_bytes(s.skip(p + 16 + i3))->Some_0;
                                if sdec_opt_bytes(s.skip(p + 16 + i3 + i4)) is None {
                                    None
                                } else {
                                    let (unshield, i5) = sdec_opt_bytes(
                                        s.skip(p + 16 + i3 + i4),
                                    )->Some_0;
                                    if p + 16 + i3 + i4 + i5 == s.len() {
                                        Some(
                                            WrapperTxV {
                                                fee_amount,
                                                fee_token: sdec_address(ab)->Some_0,
                                                pk,
                                                epoch,
                                                gas_limit,
                                                inner_tx,
                                                tx_hash,
                                                unshield,
                                            },
                                        )
                                    } else {
                                        None
                                    }
                                }
                            }
                        }
                    }
                }
            }
        }
    }
}

/// Whether a wrapper is well formed: bounded fields, a well-formed token.
pub open spec fn wf_wrapper(w: WrapperTxV) -> bool {
    &&& wf_address(w.fee_token)
    &&& w.pk.len() <= 64
    &&& w.inner_tx.len() <= 0xFFFFFFFF
    &&& w.tx_hash.len() <= 64
    &&& (w.unshield matches Some(b) ==> b.len() <= 0xFFFFFFFF)
}

/// An encoded wrapper fits in a bounded buffer.
pub proof fn lemma_wrapper_enc_len(w: WrapperTxV)
    requires
        wf_wrapper(w),
    ensures
        enc_wrapper(w).len() <= 0x400000000,
{
    lemma_enc_le_len(w.fee_amount as nat, 8);
    lemma_address_enc_len(w.fee_token);
    lemma_enc_le_len(enc_address(w.fee_token).len(), 8);
    lemma_enc_le_len(w.pk.len(), 8);
    lemma_enc_le_len(w.epoch as nat, 8);
    lemma_enc_le_len(w.gas_limit as nat, 8);
    lemma_enc_le_len(w.inner_tx.len(), 8);
    lemma_enc_le_len(w.tx_hash.len(), 8);
    match w.unshield {
        Some(b) => {
            lemma_enc_le_len(b.len(), 8);
        },
        None => {
        },
    }
}

/// Decoding an encoded wrapper yields the original.
#[verifier::rlimit(100)]
pub proof fn lemma_wrapper_round_trip(w: WrapperTxV)
    requires
        wf_wrapper(w),
    ensures
        sdec_wrapper(enc_wrapper(w)) == Some(w),
{
    lemma_pow256_8();
    let s = enc_wrapper(w);
    let ab = enc_address(w.fee_token);
    lemma_address_enc_len(w.fee_token);
    let r1 = enc_bytes(ab) + enc_bytes(w.pk) + enc_le(w.epoch as nat, 8) + enc_le(
        w.gas_limit as nat,
        8,
    ) + enc_bytes(w.inner_tx) + enc_bytes(w.tx_hash) + enc_opt_bytes(w.unshield);
    assert(s =~= enc_le(w.fee_amount as nat, 8) + r1);
    lemma_sdec_u64_enc(w.fee_amount, r1);
    lemma_enc_le_len(w.fee_amount as nat, 8);
    let r2 = enc_bytes(w.pk) + enc_le(w.epoch as nat, 8) + enc_le(w.gas_limit as nat, 8)
        + enc_bytes(w.inner_tx) + enc_bytes(w.tx_hash) + enc_opt_bytes(w.unshield);
    assert(s.skip(8) =~= enc_bytes(ab) + r2);
    lemma_sdec_bytes_enc(ab, r2);
    lemma_enc_le_len(ab.len(), 8);
    lemma_address_round_trip(w.fee_token);
    let i1 = 8 + ab.len() as int;
    let r3 = enc_le(w.epoch as nat, 8) + enc_le(w.gas_limit as nat, 8) + enc_bytes(w.inner_tx)
        + enc_bytes(w.tx_hash) + enc_opt_bytes(w.unshield);
    assert(s.skip(8 + i1) =~= enc_bytes(w.pk) + r3);
    lemma_sdec_bytes_enc(w.pk, r3);
    lemma_enc_le_len(w.pk.len(), 8);
    let i2 = 8 + w.pk.len() as int;
    let p = 8 + i1 + i2;
    let r4 = enc_le(w.gas_limit as nat, 8) + enc_bytes(w.inner_tx) + enc_bytes(w.tx_hash)
        + enc_opt_bytes(w.unshield);
    assert(s.skip(p) =~= enc_le(w.epoch as nat, 8) + r4);
    lemma_sdec_u64_enc(w.epoch, r4);
    lemma_enc_le_len(w.epoch as nat, 8);
    let r5 = enc_bytes(w.inner_tx) + enc_bytes(w.tx_hash) + enc_opt_bytes(w.unshield);
    assert(s.skip(p + 8) =~= enc_le(w.gas_limit as nat, 8) + r5);
    lemma_sdec_u64_enc(w.gas_limit, r5);
    lemma_enc_le_len(w.gas_limit as nat, 8);
    let r6 = enc_bytes(w.tx_hash) + enc_opt_bytes(w.unshield);
    assert(s.skip(p + 16) =~= enc_bytes(w.inner_tx) + r6);
    lemma_sdec_bytes_enc(w.inner_tx, r6);
    lemma_enc_le_len(w.inner_tx.len(), 8);
    let i3 = 8 + w.inner_tx.len() as int;
    let r7 = enc_opt_bytes(w.unshield);
    assert(s.skip(p + 16 + i3) =~= enc_bytes(w.tx_hash) + r7);
    lemma_sdec_bytes_enc(w.tx_hash, r7);
    lemma_enc_le_len(w.tx_hash.len(), 8);
    let i4 = 8 + w.tx_hash.len() as int;
    assert(s.skip(p + 16 + i3 + i4) =~= enc_opt_bytes(w.unshield) + Seq::<u8>::empty());
    lemma_sdec_opt_bytes_enc(w.unshield, Seq::<u8>::empty());
    let i5 = enc_opt_bytes(w.unshield).len() as int;
    assert(p + 16 + i3 + i4 + i5 == s.len());
}

impl WrapperTx {
    /// Builds a wrapper around an inner transaction: the payload is sealed
    /// and committed to by its digest.
    pub fn new(
        fee: Fee,
        pk: Vec<u8>,
        epoch: u64,
        gas_limit: u64,
        tx: &Tx,
        _key: &EncryptionKey,
    ) -> (r: WrapperTx)
        ensures
            r@.fee_amount == fee.amount,
            r@.fee_token == fee.token@,
            r@.pk == pk@,
            r@.epoch == epoch,
            r@.gas_limit == gas_limit,
            r@.inner_tx == enc_tx(tx@),
            r@.tx_hash == sha256_of(enc_tx(tx@)),
            r@.unshield is None,
    {
        let inner_tx = tx.to_bytes();
        let tx_hash = sha256(&inner_tx);
        WrapperTx { fee, pk, epoch, gas_limit, inner_tx, tx_hash, unshield: None }
    }

    /// Opens the sealed payload: succeeds exactly when the payload matches
    /// the hash commitment and decodes as a transaction.
    pub fn decrypt(&self) -> (r: Option<Tx>)
        ensures
            match r {
                Some(tx) => {
                    &&& sha256_of(self@.inner_tx) == self@.tx_hash
                    &&& sdec_raw_tx(self@.inner_tx) matches Some(v) && v.timestamp matches Some(
                        (_s, n),
                    ) && n < 1_000_000_000 && tx@ == tx_of_wire(v)
                },
                None => {
                    ||| sha256_of(self@.inner_tx) != self@.tx_hash
                    ||| sdec_raw_tx(self@.inner_tx) is None
                    ||| (sdec_raw_tx(self@.inner_tx) matches Some(v) && (v.timestamp is None || (
                    v.timestamp matches Some((_s, n)) && n >= 1_000_000_000)))
                },
            },
    {
        let digest = sha256(&self.inner_tx);
        if !bytes_eq(&digest, &self.tx_hash) {
            return None;
        }
        match Tx::try_from_bytes(&self.inner_tx) {
            Ok(tx) => Some(tx),
            Err(_e) => None,
        }
    }

    /// Serializes the wrapper canonically.
    pub fn encode(&self) -> (r: Vec<u8>)
        ensures
            r@ == enc_wrapper(self@),
    {
        let mut out: Vec<u8> = Vec::new();
        write_u64(&mut out, self.fee.amount);
        let ab = self.fee.token.encode();
        write_bytes(&mut out, &ab);
        write_bytes(&mut out, &self.pk);
        write_u64(&mut out, self.epoch);
        write_u64(&mut out, self.gas_limit);
        write_bytes(&mut out, &self.inner_tx);
        write_bytes(&mut out, &self.tx_hash);
        write_opt_bytes(&mut out, &self.unshield);
        proof {
            assert(out@ =~= enc_wrapper(self@));
        }
        out
    }

    /// Parses a whole buffer as a wrapper.
    #[verifier::rlimit(100)]
    pub fn decode(buf: &Vec<u8>) -> (r: Option<WrapperTx>)
        ensures
            r matches Some(w) ==> sdec_wrapper(buf@) == Some(w@),
            r is None ==> sdec_wrapper(buf@) is None,
    {
        let mut pos: usize = 0;
        let fee_amount = match read_u64(buf, &mut pos) {
            Some(v) => v,
            None => {
                return None;
            },
        };
        proof {
            assert(buf@.take(8) =~= buf@.subrange(0, 8));
            assert(sdec_u64(buf@) == Some((fee_amount, 8int)));
            assert(buf@.skip(8) =~= buf@.skip(pos as int));
        }
        let ab = match read_bytes(buf, &mut pos) {
            Some(b) => b,
            None => {
                return None;
            },
        };
        proof {
            assert(buf@.subrange(8, pos as int) == enc_bytes(ab@));
            assert(buf@.skip(8) =~= enc_bytes(ab@) + buf@.skip(pos as int));
            assert(ab@.len() < pow256(8)) by {
                lemma_pow256_8();
            };
            lemma_sdec_bytes_enc(ab@, buf@.skip(pos as int));
            lemma_enc_le_len(ab@.len(), 8);
        }
        let ghost i1 = 8 + ab@.len() as int;
        let fee_token = match Address::decode(&ab) {
            Some(a) => a,
            None => {
                return None;
            },
        };
        let pk = match read_bytes(buf, &mut pos) {
            Some(b) => b,
            None => {
                return None;
            },
        };
        proof {
            assert(buf@.subrange(8 + i1, pos as int) == enc_bytes(pk@));
            assert(buf@.skip(8 + i1) =~= enc_bytes(pk@) + buf@.skip(pos as int));
            assert(pk@.len() < pow256(8)) by {
                lemma_pow256_8();
            };
            lemma_sdec_bytes_enc(pk@, buf@.skip(pos as int));
            lemma_enc_le_len(pk@.len(), 8);
        }
        let ghost p = 8 + i1 + 8 + pk@.len() as int;
        let epoch = match read_u64(buf, &mut pos) {
            Some(v) => v,
            None => {
                return None;
            },
        };
        proof {
            assert(buf@.skip(p).take(8) =~= buf@.subrange(p, p + 8));
            assert(sdec_u64(buf@.skip(p)) == Some((epoch, 8int)));
        }
        let gas_limit = match read_u64(buf, &mut pos) {
            Some(v) => v,
            None => {
                return None;
            },
        };
        proof {
            assert(buf@.skip(p + 8).take(8) =~= buf@.subrange(p + 8, p + 16));
            assert(sdec_u64(buf@.skip(p + 8)) == Some((gas_limit, 8int)));
            assert(buf@.skip(p + 16) =~= buf@.skip(pos as int));
        }
        let inner_tx = match read_bytes(buf, &mut pos) {
            Some(b) => b,
            None => {
                return None;
            },
        };
        proof {
            assert(buf@.subrange(p + 16, pos as int) == enc_bytes(inner_tx@));
            assert(buf@.skip(p + 16) =~= enc_bytes(inner_tx@) + buf@.skip(pos as int));
            assert(inner_tx@.len() < pow256(8)) by {
                lemma_pow256_8();
            };
            lemma_sdec_bytes_enc(inner_tx@, buf@.skip(pos as int));
            lemma_enc_le_len(inner_tx@.len(), 8);
        }
        let ghost i3 = 8 + inner_tx@.len() as int;
        let tx_hash = match read_bytes(buf, &mut pos) {
            Some(b) => b,
            None => {
                return None;
            },
        };
        proof {
            assert(buf@.subrange(p + 16 + i3, pos as int) == enc_bytes(tx_hash@));
            assert(buf@.skip(p + 16 + i3) =~= enc_bytes(tx_hash@) + buf@.skip(pos as int));
            assert(tx_hash@.len() < pow256(8)) by {
                lemma_pow256_8();
            };
            lemma_sdec_bytes_enc(tx_hash@, buf@.skip(pos as int));
            lemma_enc_le_len(tx_hash@.len(), 8);
        }
        let ghost i4 = 8 + tx_hash@.len() as int;
        let unshield = match read_opt_bytes(buf, &mut pos) {
            Some(o) => o,
            None => {
                return None;
            },
        };
        if pos != buf.len() {
            return None;
        }
        let w = WrapperTx {
            fee: Fee { amount: fee_amount, token: fee_token },
            pk,
            epoch,
            gas_limit,
            inner_tx,
            tx_hash,
            unshield,
        };
        proof {
            assert(sdec_wrapper(buf@) == Some(w@));
        }
        Some(w)
    }
}


/// A decrypted transaction: the revealed cleartext, or a marker for a
/// payload that could not be opened, which only charges the fee.
#[derive(Clone, Debug)]
pub enum DecryptedTx {
    /// The revealed inner transaction.
    Decrypted(Tx),
    /// The payload did not match its commitment or did not decode.
    Undecryptable(WrapperTx),
}

/// The mathematical value of a decrypted transaction.
pub enum DecryptedTxV {
    Decrypted(TxV),
    Undecryptable(WrapperTxV),
}

impl View for DecryptedTx {
    type V = DecryptedTxV;

    open spec fn view(&self) -> DecryptedTxV {
        match self {
            DecryptedTx::Decrypted(tx) => DecryptedTxV::Decrypted(tx@),
            DecryptedTx::Undecryptable(w) => DecryptedTxV::Undecryptable(w@),
        }
    }
}

/// A protocol transaction: a vote-extension digest signed by the
/// proposer's protocol key.
#[derive(Clone, Debug)]
pub struct ProtocolTx {
    /// The proposer's protocol public key.
    pub pk: Vec<u8>,
    /// The aggregated vote-extension digest.
    pub digest: VextDigest,
}

/// The mathematical value of a protocol transaction.
pub struct ProtocolTxV {
    pub pk: Seq<u8>,
    pub digest: VextDigestV,
}

impl View for ProtocolTx {
    type V = ProtocolTxV;

    open spec fn view(&self) -> ProtocolTxV {
        ProtocolTxV { pk: self.pk@, digest: self.digest@ }
    }
}

/// The kind of a transaction, as carried in its data payload.
#[derive(Clone, Debug)]
pub enum TxType {
    /// A plain transaction.
    Raw(Tx),
    /// A fee-carrying wrapper with a sealed payload.
    Wrapper(WrapperTx),
    /// A payload revealed from the previous block's queue.
    Decrypted(DecryptedTx),
    /// An internal-origin transaction.
    Protocol(ProtocolTx),
}

/// The mathematical value of a transaction kind.
pub enum TxTypeV {
    Raw(TxV),
    Wrapper(WrapperTxV),
    Decrypted(DecryptedTxV),
    Protocol(ProtocolTxV),
}

impl View for TxType {
    type V = TxTypeV;

    open spec fn view(&self) -> TxTypeV {
        match self {
            TxType::Raw(tx) => TxTypeV::Raw(tx@),
            TxType::Wrapper(w) => TxTypeV::Wrapper(w@),
            TxType::Decrypted(d) => TxTypeV::Decrypted(d@),
            TxType::Protocol(p) => TxTypeV::Protocol(p@),
        }
    }
}

/// The transaction a whole buffer denotes, when it carries a valid
/// timestamp.
pub open spec fn sdec_tx_full(b: Seq<u8>) -> Option<TxV> {
    match sdec_raw_tx(b) {
        None => None,
        Some(v) => {
            if v.timestamp matches Some((_s, n)) && n < 1_000_000_000 {
                Some(tx_of_wire(v))
            } else {
                None
            }
        },
    }
}

/// The canonical encoding of a transaction kind, as a whole buffer.
pub open spec fn enc_txtype(t: TxTypeV) -> Seq<u8> {
    match t {
        TxTypeV::Raw(tx) => seq![0u8] + enc_bytes(enc_tx(tx)),
        TxTypeV::Wrapper(w) => seq![1u8] + enc_bytes(enc_wrapper(w)),
        TxTypeV::Decrypted(DecryptedTxV::Decrypted(tx)) => seq![2u8] + enc_bytes(enc_tx(tx)),
        TxTypeV::Decrypted(DecryptedTxV::Undecryptable(w)) => seq![3u8] + enc_bytes(
            enc_wrapper(w),
        ),
        TxTypeV::Protocol(p) => seq![4u8] + enc_bytes(p.pk) + enc_bytes(enc_digest(p.digest)),
    }
}

/// Spec reader for a whole transaction-kind buffer.
pub open spec fn sdec_txtype(s: Seq<u8>) -> Option<TxTypeV> {
    if s.len() < 1 {
        None
    } else if s[0] == 0 || s[0] == 2 {
        if sdec_bytes(s.skip(1)) is None {
            None
        } else {
            let (b, j) = sdec_bytes(s.skip(1))->Some_0;
            if 1 + j == s.len() && sdec_tx_full(b) is Some {
                if s[0] == 0 {
                    Some(TxTypeV::Raw(sdec_tx_full(b)->Some_0))
                } else {
                    Some(TxTypeV::Decrypted(DecryptedTxV::Decrypted(sdec_tx_full(b)->Some_0)))
                }
            } else {
                None
            }
        }
    } else if s[0] == 1 || s[0] == 3 {
        if sdec_bytes(s.skip(1)) is None {
            None
        } else {
            let (b, j) = sdec_bytes(s.skip(1))->Some_0;
            if 1 + j == s.len() && sdec_wrapper(b) is Some {
                if s[0] == 1 {
                    Some(TxTypeV::Wrapper(sdec_wrapper(b)->Some_0))
                } else {
                    Some(TxTypeV::Decrypted(DecryptedTxV::Undecryptable(sdec_wrapper(b)->Some_0)))
                }
            } else {
                None
            }
        }
    } else if s[0] == 4 {
        if sdec_bytes(s.skip(1)) is None {
            None
        } else {
            let (pk, j) = sdec_bytes(s.skip(1))->Some_0;
            if sdec_bytes(s.skip(1 + j)) is None {
                None
            } else {
                let (db, k) = sdec_bytes(s.skip(1 + j))->Some_0;
                if 1 + j + k == s.len() && sdec_digest(db) is Some {
                    Some(TxTypeV::Protocol(ProtocolTxV { pk, digest: sdec_digest(db)->Some_0 }))
                } else {
                    None
                }
            }
        }
    } else {
        None
    }
}

/// Whether a transaction value is well formed with bounded fields.
pub open spec fn wf_tx_bounded(t: TxV) -> bool {
    &&& (match t.code {
        crate::tx::TxCodeV::Hash(h) => h.len() <= 0xFFFFFFFF,
        crate::tx::TxCodeV::Literal(l) => l.len() <= 0xFFFFFFFF,
    })
    &&& (t.data matches Some(b) ==> b.len() <= 0xFFFFFFFF)
    &&& (t.inner_tx matches Some(b) ==> b.len() <= 0xFFFFFFFF)
    &&& (t.inner_tx_code matches Some(b) ==> b.len() <= 0xFFFFFFFF)
    &&& t.timestamp.1 < 1_000_000_000
}

/// An encoded transaction fits in a bounded buffer.
pub proof fn lemma_tx_enc_len(t: TxV)
    requires
        wf_tx_bounded(t),
    ensures
        enc_tx(t).len() <= 0x800000000,
{
    let w = wire_of_tx(t);
    lemma_enc_le_len(w.code.len(), 8);
    match w.data {
        Some(b) => {
            lemma_enc_le_len(b.len(), 8);
        },
        None => {
        },
    }
    match w.inner_tx {
        Some(b) => {
            lemma_enc_le_len(b.len(), 8);
        },
        None => {
        },
    }
    match w.inner_tx_code {
        Some(b) => {
            lemma_enc_le_len(b.len(), 8);
        },
        None => {
        },
    }
    match w.timestamp {
        Some((a, b)) => {
            lemma_enc_le_len(a as nat, 8);
            lemma_enc_le_len(b as nat, 8);
        },
        None => {
        },
    }
}

/// Whether a transaction kind is well formed with bounded fields.
pub open spec fn wf_txtype(t: TxTypeV) -> bool {
    match t {
        TxTypeV::Raw(tx) => wf_tx_bounded(tx),
        TxTypeV::Wrapper(w) => wf_wrapper(w),
        TxTypeV::Decrypted(DecryptedTxV::Decrypted(tx)) => wf_tx_bounded(tx),
        TxTypeV::Decrypted(DecryptedTxV::Undecryptable(w)) => wf_wrapper(w),
        TxTypeV::Protocol(p) => p.pk.len() <= 64 && wf_digest(p.digest),
    }
}

/// Decoding an encoded transaction kind yields the original.
#[verifier::rlimit(100)]
pub proof fn lemma_txtype_round_trip(t: TxTypeV)
    requires
        wf_txtype(t),
    ensures
        sdec_txtype(enc_txtype(t)) == Some(t),
{
    lemma_pow256_8();
    let s = enc_txtype(t);
    match t {
        TxTypeV::Raw(tx) => {
            lemma_tx_rt_payload(tx);
            assert(s[0] == 0u8);
            assert(s.skip(1) =~= enc_bytes(enc_tx(tx)) + Seq::<u8>::empty());
            lemma_tx_enc_len(tx);
            lemma_sdec_bytes_enc(enc_tx(tx), Seq::<u8>::empty());
            lemma_enc_le_len(enc_tx(tx).len(), 8);
        },
        TxTypeV::Decrypted(DecryptedTxV::Decrypted(tx)) => {
            lemma_tx_rt_payload(tx);
            assert(s[0] == 2u8);
            assert(s.skip(1) =~= enc_bytes(enc_tx(tx)) + Seq::<u8>::empty());
            lemma_tx_enc_len(tx);
            lemma_sdec_bytes_enc(enc_tx(tx), Seq::<u8>::empty());
            lemma_enc_le_len(enc_tx(tx).len(), 8);
        },
        TxTypeV::Wrapper(w) => {
            assert(s[0] == 1u8);
            assert(s.skip(1) =~= enc_bytes(enc_wrapper(w)) + Seq::<u8>::empty());
            lemma_wrapper_enc_len(w);
            lemma_sdec_bytes_enc(enc_wrapper(w), Seq::<u8>::empty());
            lemma_enc_le_len(enc_wrapper(w).len(), 8);
            lemma_wrapper_round_trip(w);
        },
        TxTypeV::Decrypted(DecryptedTxV::Undecryptable(w)) => {
            assert(s[0] == 3u8);
            assert(s.skip(1) =~= enc_bytes(enc_wrapper(w)) + Seq::<u8>::empty());
            lemma_wrapper_enc_len(w);
            lemma_sdec_bytes_enc(enc_wrapper(w), Seq::<u8>::empty());
            lemma_enc_le_len(enc_wrapper(w).len(), 8);
            lemma_wrapper_round_trip(w);
        },
        TxTypeV::Protocol(p) => {
            assert(s[0] == 4u8);
            let db = enc_digest(p.digest);
            assert(s.skip(1) =~= enc_bytes(p.pk) + (enc_bytes(db) + Seq::<u8>::empty()));
            lemma_sdec_bytes_enc(p.pk, enc_bytes(db) + Seq::<u8>::empty());
            lemma_enc_le_len(p.pk.len(), 8);
            let j = 8 + p.pk.len() as int;
            assert(s.skip(1 + j) =~= enc_bytes(db) + Seq::<u8>::empty());
            lemma_digest_enc_len(p.digest);
            lemma_sdec_bytes_enc(db, Seq::<u8>::empty());
            lemma_enc_le_len(db.len(), 8);
            lemma_digest_round_trip(p.digest);
            assert(1 + j + (8 + db.len()) == s.len());
        },
    }
}

/// A well-formed transaction value survives the full decode.
proof fn lemma_tx_rt_payload(tx: TxV)
    requires
        wf_tx_bounded(tx),
    ensures
        sdec_tx_full(enc_tx(tx)) == Some(tx),
{
    lemma_pow256_8();
    let w = wire_of_tx(tx);
    lemma_raw_tx_round_trip(w);
    assert(tx_of_wire(w) == tx);
}

impl TxType {
    /// Serializes the transaction kind canonically.
    pub fn encode(&self) -> (r: Vec<u8>)
        ensures
            r@ == enc_txtype(self@),
    {
        let mut out: Vec<u8> = Vec::new();
        match self {
            TxType::Raw(tx) => {
                out.push(0u8);
                let b = tx.to_bytes();
                write_bytes(&mut out, &b);
            },
            TxType::Wrapper(w) => {
                out.push(1u8);
                let b = w.encode();
                write_bytes(&mut out, &b);
            },
            TxType::Decrypted(DecryptedTx::Decrypted(tx)) => {
                out.push(2u8);
                let b = tx.to_bytes();
                write_bytes(&mut out, &b);
            },
            TxType::Decrypted(DecryptedTx::Undecryptable(w)) => {
                out.push(3u8);
                let b = w.encode();
                write_bytes(&mut out, &b);
            },
            TxType::Protocol(p) => {
                out.push(4u8);
                write_bytes(&mut out, &p.pk);
                let b = p.digest.encode();
                write_bytes(&mut out, &b);
            },
        }
        proof {
            assert(out@ =~= enc_txtype(self@));
        }
        out
    }

    /// Parses a whole buffer as a transaction kind.
    pub fn decode(buf: &Vec<u8>) -> (r: Option<TxType>)
        ensures
            r matches Some(t) ==> sdec_txtype(buf@) == Some(t@),
            r is None ==> sdec_txtype(buf@) is None,
    {
        let mut pos: usize = 0;
        let tag = match read_u8(buf, &mut pos) {
            Some(t) => t,
            None => {
                return None;
            },
        };
        if tag > 4 {
            return None;
        }
        proof {
            assert(buf@.skip(1) =~= buf@.skip(pos as int));
        }
        if tag == 4 {
            let pk = match read_bytes(buf, &mut pos) {
                Some(b) => b,
                None => {
                    return None;
                },
            };
            proof {
                assert(buf@.subrange(1, pos as int) == enc_bytes(pk@));
                assert(buf@.skip(1) =~= enc_bytes(pk@) + buf@.skip(pos as int));
                assert(pk@.len() < pow256(8)) by {
                    lemma_pow256_8();
                };
                lemma_sdec_bytes_enc(pk@, buf@.skip(pos as int));
                lemma_enc_le_len(pk@.len(), 8);
            }
            let ghost j = 8 + pk@.len() as int;
            let db = match read_bytes(buf, &mut pos) {
                Some(b) => b,
                None => {
                    return None;
                },
            };
            proof {
                assert(buf@.subrange(1 + j, pos as int) == enc_bytes(db@));
                assert(buf@.skip(1 + j) =~= enc_bytes(db@) + buf@.skip(pos as int));
                assert(db@.len() < pow256(8)) by {
                    lemma_pow256_8();
                };
                lemma_sdec_bytes_enc(db@, buf@.skip(pos as int));
                lemma_enc_le_len(db@.len(), 8);
            }
            if pos != buf.len() {
                return None;
            }
            let digest = match VextDigest::decode(&db) {
                Some(d) => d,
                None => {
                    return None;
                },
            };
            return Some(TxType::Protocol(ProtocolTx { pk, digest }));
        }
        let b = match read_bytes(buf, &mut pos) {
            Some(b) => b,
            None => {
                return None;
            },
        };
        proof {
            assert(buf@.subrange(1, pos as int) == enc_bytes(b@));
            assert(buf@.skip(1) =~= enc_bytes(b@) + buf@.skip(pos as int));
            assert(b@.len() < pow256(8)) by {
                lemma_pow256_8();
            };
            lemma_sdec_bytes_enc(b@, buf@.skip(pos as int));
            lemma_enc_le_len(b@.len(), 8);
        }
        if pos != buf.len() {
            return None;
        }
        if tag == 0 || tag == 2 {
            let tx = match Tx::try_from_bytes(&b) {
                Ok(tx) => tx,
                Err(_e) => {
                    return None;
                },
            };
            if tag == 0 {
                Some(TxType::Raw(tx))
            } else {
                Some(TxType::Decrypted(DecryptedTx::Decrypted(tx)))
            }
        } else {
            let w = match WrapperTx::decode(&b) {
                Some(w) => w,
                None => {
                    return None;
                },
            };
            if tag == 1 {
                Some(TxType::Wrapper(w))
            } else {
                Some(TxType::Decrypted(DecryptedTx::Undecryptable(w)))
            }
        }
    }
}


/// Copies a transaction.
pub fn copy_tx(t: &Tx) -> (r: Tx)
    ensures
        r@ == t@,
{
    Tx {
        code: crate::tx::copy_tx_code(&t.code),
        data: copy_opt_bytes(&t.data),
        timestamp: t.timestamp,
        inner_tx: copy_opt_bytes(&t.inner_tx),
        inner_tx_code: copy_opt_bytes(&t.inner_tx_code),
    }
}

/// Copies a wrapper.
pub fn copy_wrapper(w: &WrapperTx) -> (r: WrapperTx)
    ensures
        r@ == w@,
{
    WrapperTx {
        fee: Fee { amount: w.fee.amount, token: copy_address(&w.fee.token) },
        pk: copy_bytes(&w.pk),
        epoch: w.epoch,
        gas_limit: w.gas_limit,
        inner_tx: copy_bytes(&w.inner_tx),
        tx_hash: copy_bytes(&w.tx_hash),
        unshield: copy_opt_bytes(&w.unshield),
    }
}

/// The given transaction value with another data field.
pub open spec fn strip_data(t: TxV, d: Option<Seq<u8>>) -> TxV {
    TxV {
        code: t.code,
        data: d,
        timestamp: t.timestamp,
        inner_tx: t.inner_tx,
        inner_tx_code: t.inner_tx_code,
    }
}

/// How a transaction is classified: a transaction without data is raw;
/// signed data whose payload is a canonical transaction kind classifies as
/// that kind, with a wrapper or protocol transaction demanding a valid
/// signature by its own key over the partial hash; unsigned data that is
/// itself a canonical transaction kind classifies as that kind, but an
/// unsigned wrapper or protocol transaction is refused.
pub open spec fn process_tx_spec(t: TxV) -> Result<TxTypeV, ProcessTxError> {
    match t.data {
        None => Ok(TxTypeV::Raw(t)),
        Some(d) => match sdec_signed(d) {
            None => match sdec_txtype(d) {
                None => Err(ProcessTxError::InvalidFormat),
                Some(tt) => match tt {
                    TxTypeV::Wrapper(_w) => Err(ProcessTxError::InvalidSignature),
                    TxTypeV::Protocol(_p) => Err(ProcessTxError::InvalidSignature),
                    _ => Ok(tt),
                },
            },
            Some((inner, sig)) => match inner {
                None => Err(ProcessTxError::InvalidFormat),
                Some(payload) => match sdec_txtype(payload) {
                    None => Err(ProcessTxError::InvalidFormat),
                    Some(tt) => match tt {
                        TxTypeV::Wrapper(w) => {
                            if ed_verify(
                                w.pk,
                                partial_hash_of(strip_data(t, Some(payload))),
                                sig,
                            ) {
                                Ok(tt)
                            } else {
                                Err(ProcessTxError::InvalidSignature)
                            }
                        },
                        TxTypeV::Protocol(p) => {
                            if ed_verify(
                                p.pk,
                                partial_hash_of(strip_data(t, Some(payload))),
                                sig,
                            ) {
                                Ok(tt)
                            } else {
                                Err(ProcessTxError::InvalidSignature)
                            }
                        },
                        _ => Ok(tt),
                    },
                },
            },
        },
    }
}

/// Classifies a transaction, rejecting malformed payloads and wrappers or
/// protocol transactions whose signature does not verify. A wrapper that
/// fails here never enters the queue and never pays a fee.
pub fn process_tx(tx: &Tx) -> (r: Result<TxType, ProcessTxError>)
    ensures
        match r {
            Ok(tt) => process_tx_spec(tx@) matches Ok(v) && tt@ == v,
            Err(e) => process_tx_spec(tx@) == Err::<TxTypeV, ProcessTxError>(e),
        },
{
    let data = match &tx.data {
        None => {
            return Ok(TxType::Raw(copy_tx(tx)));
        },
        Some(d) => d,
    };
    let signed = match SignedTxData::decode(data) {
        Some(sd) => sd,
        None => {
            // an unsigned payload may still carry a transaction kind: a
            // proposer-added decrypted transaction is not signed, while an
            // unsigned wrapper or protocol transaction is refused
            match TxType::decode(data) {
                None => {
                    return Err(ProcessTxError::InvalidFormat);
                },
                Some(tt) => match tt {
                    TxType::Wrapper(_w) => {
                        return Err(ProcessTxError::InvalidSignature);
                    },
                    TxType::Protocol(_p) => {
                        return Err(ProcessTxError::InvalidSignature);
                    },
                    other => {
                        return Ok(other);
                    },
                },
            }
        },
    };
    let payload = match &signed.data {
        Some(p) => p,
        None => {
            return Err(ProcessTxError::InvalidFormat);
        },
    };
    let tt = match TxType::decode(payload) {
        Some(t) => t,
        None => {
            return Err(ProcessTxError::InvalidFormat);
        },
    };
    let pk: &Vec<u8> = match &tt {
        TxType::Wrapper(w) => &w.pk,
        TxType::Protocol(p) => &p.pk,
        _ => {
            return Ok(tt);
        },
    };
    let stripped = Tx {
        code: crate::tx::copy_tx_code(&tx.code),
        data: Some(copy_bytes(payload)),
        timestamp: tx.timestamp,
        inner_tx: copy_opt_bytes(&tx.inner_tx),
        inner_tx_code: copy_opt_bytes(&tx.inner_tx_code),
    };
    let hash = stripped.partial_hash();
    if ed_verify_bytes(pk, &hash, &signed.sig) {
        Ok(tt)
    } else {
        Err(ProcessTxError::InvalidSignature)
    }
}

impl WrapperTx {
    /// Wraps this wrapper in a fresh outer transaction and signs it with
    /// the payer's key: the classifier then accepts it as a wrapper.
    pub fn sign(&self, sk: &Vec<u8>) -> (r: Tx)
        requires
            sk@.len() == 32,
        ensures
            ({
                let payload = enc_txtype(TxTypeV::Wrapper(self@));
                &&& r@ == Tx::signed_with(
                    TxV {
                        code: crate::tx::TxCodeV::Literal(Seq::empty()),
                        data: Some(payload),
                        timestamp: r@.timestamp,
                        inner_tx: None,
                        inner_tx_code: None,
                    },
                    sk@,
                )
                &&& r@.timestamp.1 < 1_000_000_000
            }),
    {
        let payload = TxType::Wrapper(copy_wrapper(self)).encode();
        let outer = Tx::new(Vec::new(), Some(payload));
        proof {
            assert(Seq::<u8>::empty() =~= outer@.code->Literal_0);
        }
        outer.sign(sk)
    }
}

} // verus!
