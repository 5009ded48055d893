//! Ethereum events, vote extensions and their aggregated digests.
//!
//! Each validator observes confirmed Ethereum events and signs them into a
//! vote extension stamped with the last committed height. A proposer
//! aggregates the extensions of the previous block into one digest: events
//! grouped with their signer sets, plus every validator's signature.

use vstd::prelude::*;
use crate::bytes::{enc_le, enc_bytes, enc_list, sdec_u64, sdec_bytes, sdec_list,
    view_seqs, wf_items, pow256, lemma_pow256_8, lemma_sdec_u64_enc, lemma_sdec_bytes_enc,
    lemma_sdec_list_enc, lemma_enc_le_len, write_u64, write_bytes, write_list, read_u8, read_u64,
    read_bytes, read_list, bytes_eq};
use crate::address::{Address, AddressV, enc_address, sdec_address, wf_address,
    lemma_address_round_trip, address_eq};
use crate::tx::copy_bytes;
use crate::crypto::{ed_sign, ed_sign_bytes, ed_verify, ed_verify_bytes};

verus! {

/// A single inbound transfer confirmed on the Ethereum chain.
#[derive(Clone, Debug)]
pub struct TransferToNamada {
    /// The amount of wrapped tokens to mint.
    pub amount: u64,
    /// The Ethereum address of the asset.
    pub asset: Vec<u8>,
    /// The receiving ledger address.
    pub receiver: Address,
}

/// The mathematical value of a transfer.
pub struct TransferToNamadaV {
    pub amount: u64,
    pub asset: Seq<u8>,
    pub receiver: AddressV,
}

impl View for TransferToNamada {
    type V = TransferToNamadaV;

    open spec fn view(&self) -> TransferToNamadaV {
        TransferToNamadaV { amount: self.amount, asset: self.asset@, receiver: self.receiver@ }
    }
}

/// The canonical encoding of a transfer, as a whole buffer.
pub open spec fn enc_transfer(t: TransferToNamadaV) -> Seq<u8> {
    enc_le(t.amount as nat, 8) + enc_bytes(t.asset) + enc_bytes(enc_address(t.receiver))
}

/// Spec reader for a whole transfer buffer.
pub open spec fn sdec_transfer(s: Seq<u8>) -> Option<TransferToNamadaV> {
    if sdec_u64(s) is None {
        None
    } else {
        let (amount, _i) = sdec_u64(s)->Some_0;
        if sdec_bytes(s.skip(8)) is None {
            None
        } else {
            let (asset, j) = sdec_bytes(s.skip(8))->Some_0;
            if sdec_bytes(s.skip(8 + j)) is None {
                None
            } else {
                let (ab, k) = sdec_bytes(s.skip(8 + j))->Some_0;
                if 8 + j + k == s.len() && sdec_address(ab) is Some {
                    Some(
                        TransferToNamadaV {
                            amount,
                            asset,
                            receiver: sdec_address(ab)->Some_0,
                        },
                    )
                } else {
                    None
                }
            }
        }
    }
}

/// Whether a transfer is well formed: a 20-byte asset address and a
/// well-formed receiver.
pub open spec fn wf_transfer(t: TransferToNamadaV) -> bool {
    t.asset.len() == 20 && wf_address(t.receiver)
}

/// Decoding an encoded transfer yields the original.
pub proof fn lemma_transfer_round_trip(t: TransferToNamadaV)
    requires
        wf_transfer(t),
    ensures
        sdec_transfer(enc_transfer(t)) == Some(t),
{
    lemma_pow256_8();
    let s = enc_transfer(t);
    let ab = enc_address(t.receiver);
    let r1 = enc_bytes(t.asset) + enc_bytes(ab);
    assert(s =~= enc_le(t.amount as nat, 8) + r1);
    lemma_sdec_u64_enc(t.amount, r1);
    lemma_enc_le_len(t.amount as nat, 8);
    assert(s.skip(8) =~= enc_bytes(t.asset) + (enc_bytes(ab) + Seq::<u8>::empty()));
    lemma_sdec_bytes_enc(t.asset, enc_bytes(ab) + Seq::<u8>::empty());
    lemma_enc_le_len(t.asset.len(), 8);
    let j = 8 + t.asset.len() as int;
    assert(s.skip(8 + j) =~= enc_bytes(ab) + Seq::<u8>::empty());
    lemma_sdec_bytes_enc(ab, Seq::<u8>::empty());
    lemma_enc_le_len(ab.len(), 8);
    lemma_address_round_trip(t.receiver);
    assert(8 + j + (8 + ab.len()) == s.len());
}

impl TransferToNamada {
    /// Serializes the transfer canonically.
    pub fn encode(&self) -> (r: Vec<u8>)
        ensures
            r@ == enc_transfer(self@),
    {
        let mut out: Vec<u8> = Vec::new();
        write_u64(&mut out, self.amount);
        write_bytes(&mut out, &self.asset);
        let ab = self.receiver.encode();
        write_bytes(&mut out, &ab);
        proof {
            assert(out@ =~= enc_transfer(self@));
        }
        out
    }

    /// Parses a whole buffer as a transfer.
    pub fn decode(buf: &Vec<u8>) -> (r: Option<TransferToNamada>)
        ensures
            r matches Some(t) ==> sdec_transfer(buf@) == Some(t@),
            r is None ==> sdec_transfer(buf@) is None,
    {
        let mut pos: usize = 0;
        let amount = match read_u64(buf, &mut pos) {
            Some(v) => v,
            None => {
                return None;
            },
        };
        proof {
            assert(buf@.take(8) =~= buf@.subrange(0, 8));
            assert(sdec_u64(buf@) == Some((amount, 8int)));
            assert(buf@.skip(8) =~= buf@.skip(pos as int));
        }
        let asset = match read_bytes(buf, &mut pos) {
            Some(b) => b,
            None => {
                return None;
            },
        };
        proof {
            assert(buf@.subrange(8, pos as int) == enc_bytes(asset@));
            assert(buf@.skip(8) =~= enc_bytes(asset@) + buf@.skip(pos as int));
            assert(asset@.len() < pow256(8)) by {
                lemma_pow256_8();
            };
            lemma_sdec_bytes_enc(asset@, buf@.skip(pos as int));
            lemma_enc_le_len(asset@.len(), 8);
        }
        let ghost j = 8 + asset@.len() as int;
        let ab = match read_bytes(buf, &mut pos) {
            Some(b) => b,
            None => {
                return None;
            },
        };
        proof {
            assert(buf@.subrange(8 + j, pos as int) == enc_bytes(ab@));
            assert(buf@.skip(8 + j) =~= enc_bytes(ab@) + buf@.skip(pos as int));
            assert(ab@.len() < pow256(8)) by {
                lemma_pow256_8();
            };
            lemma_sdec_bytes_enc(ab@, buf@.skip(pos as int));
            lemma_enc_le_len(ab@.len(), 8);
        }
        if pos != buf.len() {
            return None;
        }
        let receiver = match Address::decode(&ab) {
            Some(a) => a,
            None => {
                return None;
            },
        };
        Some(TransferToNamada { amount, asset, receiver })
    }
}

/// An event observed on the Ethereum chain, carrying a per-kind nonce.
#[derive(Clone, Debug)]
pub enum EthereumEvent {
    /// Inbound transfers to be minted as wrapped tokens.
    TransfersToNamada { nonce: u64, transfers: Vec<TransferToNamada> },
    /// A validator-set update signed off on the Ethereum side.
    ValidatorSetUpdate { nonce: u64 },
}

/// The mathematical value of an event.
pub enum EthereumEventV {
    TransfersToNamada { nonce: u64, transfers: Seq<TransferToNamadaV> },
    ValidatorSetUpdate { nonce: u64 },
}

impl View for EthereumEvent {
    type V = EthereumEventV;

    open spec fn view(&self) -> EthereumEventV {
        match self {
            EthereumEvent::TransfersToNamada { nonce, transfers } => {
                EthereumEventV::TransfersToNamada {
                    nonce: *nonce,
                    transfers: transfers@.map_values(|t: TransferToNamada| t@),
                }
            },
            EthereumEvent::ValidatorSetUpdate { nonce } => {
                EthereumEventV::ValidatorSetUpdate { nonce: *nonce }
            },
        }
    }
}

/// The nonce an event carries.
pub open spec fn event_nonce(e: EthereumEventV) -> u64 {
    match e {
        EthereumEventV::TransfersToNamada { nonce, .. } => nonce,
        EthereumEventV::ValidatorSetUpdate { nonce } => nonce,
    }
}

/// The kind of an event, the key under which its nonce is stored.
pub open spec fn event_kind(e: EthereumEventV) -> int {
    match e {
        EthereumEventV::TransfersToNamada { .. } => 0int,
        EthereumEventV::ValidatorSetUpdate { .. } => 1int,
    }
}

/// Spec reader for a list of transfers, item by item.
pub open spec fn sdec_transfers(bs: Seq<Seq<u8>>) -> Option<Seq<TransferToNamadaV>>
    decreases bs.len(),
{
    if bs.len() == 0 {
        Some(Seq::empty())
    } else {
        if sdec_transfer(bs[0]) is None {
            None
        } else {
            if sdec_transfers(bs.drop_first()) is None {
                None
            } else {
                Some(seq![sdec_transfer(bs[0])->Some_0] + sdec_transfers(bs.drop_first())->Some_0)
            }
        }
    }
}

/// Decoding encoded transfers yields the originals.
pub proof fn lemma_sdec_transfers_enc(ts: Seq<TransferToNamadaV>)
    requires
        forall|i: int| 0 <= i < ts.len() ==> wf_transfer(#[trigger] ts[i]),
    ensures
        sdec_transfers(ts.map_values(|t: TransferToNamadaV| enc_transfer(t))) == Some(ts),
    decreases ts.len(),
{
    let bs = ts.map_values(|t: TransferToNamadaV| enc_transfer(t));
    if ts.len() == 0 {
        assert(bs.len() == 0);
        assert(Seq::<TransferToNamadaV>::empty() =~= ts);
    } else {
        assert(bs[0] == enc_transfer(ts[0]));
        lemma_transfer_round_trip(ts[0]);
        assert(bs.drop_first() =~= ts.drop_first().map_values(
            |t: TransferToNamadaV| enc_transfer(t),
        ));
        lemma_sdec_transfers_enc(ts.drop_first());
        assert(seq![ts[0]] + ts.drop_first() =~= ts);
    }
}

/// The canonical encoding of an event, as a whole buffer.
pub open spec fn enc_event(e: EthereumEventV) -> Seq<u8> {
    match e {
        EthereumEventV::TransfersToNamada { nonce, transfers } => {
            seq![0u8] + enc_le(nonce as nat, 8) + enc_list(
                transfers.map_values(|t: TransferToNamadaV| enc_transfer(t)),
            )
        },
        EthereumEventV::ValidatorSetUpdate { nonce } => {
            seq![1u8] + enc_le(nonce as nat, 8)
        },
    }
}

/// Spec reader for a whole event buffer.
pub open spec fn sdec_event(s: Seq<u8>) -> Option<EthereumEventV> {
    if s.len() < 1 {
        None
    } else if s[0] == 0 {
        if sdec_u64(s.skip(1)) is None {
            None
        } else {
            let (nonce, _i) = sdec_u64(s.skip(1))->Some_0;
            if sdec_list(s.skip(9)) is None {
                None
            } else {
                let (items, j) = sdec_list(s.skip(9))->Some_0;
                if 9 + j == s.len() && sdec_transfers(items) is Some {
                    Some(
                        EthereumEventV::TransfersToNamada {
                            nonce,
                            transfers: sdec_transfers(items)->Some_0,
                        },
                    )
                } else {
                    None
                }
            }
        }
    } else if s[0] == 1 && s.len() == 9 {
        if sdec_u64(s.skip(1)) is None {
            None
        } else {
            let (nonce, _i) = sdec_u64(s.skip(1))->Some_0;
            Some(EthereumEventV::ValidatorSetUpdate { nonce })
        }
    } else {
        None
    }
}

/// Whether an event is well formed: a bounded transfer list of
/// well-formed transfers.
pub open spec fn wf_event(e: EthereumEventV) -> bool {
    match e {
        EthereumEventV::TransfersToNamada { transfers, .. } => {
            &&& transfers.len() <= 0xFFFFFFFF
            &&& forall|i: int| 0 <= i < transfers.len() ==> wf_transfer(#[trigger] transfers[i])
        },
        EthereumEventV::ValidatorSetUpdate { .. } => true,
    }
}

/// An encoded event fits in a bounded buffer.
pub proof fn lemma_event_enc_len(e: EthereumEventV)
    requires
        wf_event(e),
    ensures
        enc_event(e).len() <= 17 + 0xFFFFFFFF * 125,
{
    match e {
        EthereumEventV::TransfersToNamada { nonce, transfers } => {
            let bs = transfers.map_values(|t: TransferToNamadaV| enc_transfer(t));
            assert(forall|i: int| 0 <= i < bs.len() ==> (#[trigger] bs[i]).len() <= 117) by {
                assert forall|i: int| 0 <= i < bs.len() implies (#[trigger] bs[i]).len()
                    <= 117 by {
                    lemma_transfer_enc_len(transfers[i]);
                };
            };
            crate::bytes::lemma_enc_items_len_bound(bs, 117);
            lemma_enc_le_len(nonce as nat, 8);
            lemma_enc_le_len(bs.len(), 8);
            assert(bs.len() * 125 <= 0xFFFFFFFF * 125) by (nonlinear_arith)
                requires
                    bs.len() <= 0xFFFFFFFF,
            ;
        },
        EthereumEventV::ValidatorSetUpdate { nonce } => {
            lemma_enc_le_len(nonce as nat, 8);
        },
    }
}

/// Decoding an encoded event yields the original.
pub proof fn lemma_event_round_trip(e: EthereumEventV)
    requires
        wf_event(e),
    ensures
        sdec_event(enc_event(e)) == Some(e),
{
    let s = enc_event(e);
    match e {
        EthereumEventV::TransfersToNamada { nonce, transfers } => {
            let bs = transfers.map_values(|t: TransferToNamadaV| enc_transfer(t));
            assert(s[0] == 0u8);
            assert(s.skip(1) =~= enc_le(nonce as nat, 8) + (enc_list(bs) + Seq::<u8>::empty()));
            lemma_sdec_u64_enc(nonce, enc_list(bs) + Seq::<u8>::empty());
            lemma_enc_le_len(nonce as nat, 8);
            assert(s.skip(9) =~= enc_list(bs) + Seq::<u8>::empty());
            assert(wf_items(bs)) by {
                lemma_pow256_8();
                assert forall|i: int| 0 <= i < bs.len() implies (#[trigger] bs[i]).len() < pow256(
                    8,
                ) by {
                    assert(bs[i] == enc_transfer(transfers[i]));
                    lemma_transfer_enc_len(transfers[i]);
                };
            };
            assert(bs.len() < pow256(8)) by {
                lemma_pow256_8();
            };
            lemma_sdec_list_enc(bs, Seq::<u8>::empty());
            lemma_sdec_transfers_enc(transfers);
            assert(9 + enc_list(bs).len() == s.len());
        },
        EthereumEventV::ValidatorSetUpdate { nonce } => {
            assert(s[0] == 1u8);
            assert(s.skip(1) =~= enc_le(nonce as nat, 8) + Seq::<u8>::empty());
            lemma_sdec_u64_enc(nonce, Seq::<u8>::empty());
            lemma_enc_le_len(nonce as nat, 8);
            assert(s.len() == 9);
        },
    }
}

/// An encoded transfer fits in a bounded buffer.
pub proof fn lemma_transfer_enc_len(t: TransferToNamadaV)
    requires
        wf_transfer(t),
    ensures
        enc_transfer(t).len() <= 117,
{
    lemma_enc_le_len(t.amount as nat, 8);
    lemma_enc_le_len(t.asset.len(), 8);
    lemma_enc_le_len(enc_address(t.receiver).len(), 8);
    crate::address::lemma_address_enc_len(t.receiver);
}

/// Parses each buffer of a list as a transfer.
pub fn decode_transfers(items: &Vec<Vec<u8>>) -> (r: Option<Vec<TransferToNamada>>)
    ensures
        r matches Some(ts) ==> sdec_transfers(view_seqs(items@)) == Some(
            ts@.map_values(|t: TransferToNamada| t@),
        ),
        r is None ==> sdec_transfers(view_seqs(items@)) is None,
{
    let ghost bs = view_seqs(items@);
    let mut transfers: Vec<TransferToNamada> = Vec::new();
    let n = items.len();
    proof {
        assert(bs.skip(0) =~= bs);
        if sdec_transfers(bs) is Some {
            let r0 = sdec_transfers(bs)->Some_0;
            assert(transfers@.map_values(|t: TransferToNamada| t@) + r0 =~= r0);
        }
    }
    for i in 0..n
        invariant
            n == items@.len(),
            bs == view_seqs(items@),
            transfers@.len() == i,
            sdec_transfers(bs) == (match sdec_transfers(bs.skip(i as int)) {
                None => None::<Seq<TransferToNamadaV>>,
                Some(rest) => Some(transfers@.map_values(|t: TransferToNamada| t@) + rest),
            }),
    {
        proof {
            assert(bs.skip(i as int)[0] == bs[i as int]);
            assert(bs.skip(i as int).drop_first() =~= bs.skip(i + 1));
        }
        let t = match TransferToNamada::decode(&items[i]) {
            Some(t) => t,
            None => {
                proof {
                    assert(sdec_transfers(bs.skip(i as int)) is None);
                }
                return None;
            },
        };
        let ghost old_ts = transfers@;
        transfers.push(t);
        proof {
            assert(transfers@ =~= old_ts.push(t));
            if sdec_transfers(bs.skip(i + 1)) is Some {
                let rest = sdec_transfers(bs.skip(i + 1))->Some_0;
                assert(sdec_transfers(bs.skip(i as int)) == Some(seq![t@] + rest));
                assert(old_ts.map_values(|x: TransferToNamada| x@) + (seq![t@] + rest)
                    =~= transfers@.map_values(|x: TransferToNamada| x@) + rest);
            }
        }
    }
    proof {
        assert(bs.skip(n as int) =~= Seq::<Seq<u8>>::empty());
        assert(transfers@.map_values(|t: TransferToNamada| t@) + Seq::<TransferToNamadaV>::empty()
            =~= transfers@.map_values(|t: TransferToNamada| t@));
    }
    Some(transfers)
}

impl EthereumEvent {
    /// Serializes the event canonically.
    pub fn encode(&self) -> (r: Vec<u8>)
        ensures
            r@ == enc_event(self@),
    {
        let mut out: Vec<u8> = Vec::new();
        match self {
            EthereumEvent::TransfersToNamada { nonce, transfers } => {
                out.push(0u8);
                write_u64(&mut out, *nonce);
                let mut items: Vec<Vec<u8>> = Vec::new();
                let n = transfers.len();
                for i in 0..n
                    invariant
                        n == transfers@.len(),
                        items@.len() == i,
                        forall|k: int| 0 <= k < i ==> view_seqs(items@)[k] == enc_transfer(
                            #[trigger] transfers@[k]@,
                        ),
                {
                    let item = transfers[i].encode();
                    items.push(item);
                }
                proof {
                    assert(view_seqs(items@) =~= transfers@.map_values(|t: TransferToNamada| t@)
                        .map_values(|t: TransferToNamadaV| enc_transfer(t)));
                }
                write_list(&mut out, &items);
                proof {
                    assert(out@ =~= enc_event(self@));
                }
            },
            EthereumEvent::ValidatorSetUpdate { nonce } => {
                out.push(1u8);
                write_u64(&mut out, *nonce);
                proof {
                    assert(out@ =~= enc_event(self@));
                }
            },
        }
        out
    }

    /// Parses a whole buffer as an event.
    pub fn decode(buf: &Vec<u8>) -> (r: Option<EthereumEvent>)
        ensures
            r matches Some(e) ==> sdec_event(buf@) == Some(e@),
            r is None ==> sdec_event(buf@) is None,
    {
        let mut pos: usize = 0;
        let tag = match read_u8(buf, &mut pos) {
            Some(t) => t,
            None => {
                return None;
            },
        };
        if tag == 0 {
            proof {
                assert(buf@.skip(1) =~= buf@.skip(pos as int));
            }
            let nonce = match read_u64(buf, &mut pos) {
                Some(v) => v,
                None => {
                    return None;
                },
            };
            proof {
                assert(buf@.skip(1).take(8) =~= buf@.subrange(1, 9));
                assert(sdec_u64(buf@.skip(1)) == Some((nonce, 8int)));
                assert(buf@.skip(9) =~= buf@.skip(pos as int));
            }
            let items = match read_list(buf, &mut pos) {
                Some(v) => v,
                None => {
                    return None;
                },
            };
            if pos != buf.len() {
                return None;
            }
            let transfers = match decode_transfers(&items) {
                Some(ts) => ts,
                None => {
                    return None;
                },
            };
            Some(EthereumEvent::TransfersToNamada { nonce, transfers })
        } else if tag == 1 {
            proof {
                assert(buf@.skip(1) =~= buf@.skip(pos as int));
            }
            let nonce = match read_u64(buf, &mut pos) {
                Some(v) => v,
                None => {
                    return None;
                },
            };
            proof {
                assert(buf@.skip(1).take(8) =~= buf@.subrange(1, 9));
                assert(sdec_u64(buf@.skip(1)) == Some((nonce, 8int)));
            }
            if pos != buf.len() {
                return None;
            }
            Some(EthereumEvent::ValidatorSetUpdate { nonce })
        } else {
            None
        }
    }
}

/// Whether two transfer lists are equal, element by element.
pub fn transfers_eq(t1: &Vec<TransferToNamada>, t2: &Vec<TransferToNamada>) -> (r: bool)
    ensures
        r <==> t1@.map_values(|t: TransferToNamada| t@) == t2@.map_values(
            |t: TransferToNamada| t@,
        ),
{
    if t1.len() != t2.len() {
        assert(t1@.map_values(|t: TransferToNamada| t@).len() != t2@.map_values(
            |t: TransferToNamada| t@,
        ).len());
        return false;
    }
    let n = t1.len();
    for i in 0..n
        invariant
            n == t1@.len() && n == t2@.len(),
            forall|k: int| 0 <= k < i ==> t1@[k]@ == t2@[k]@,
    {
        let x = &t1[i];
        let y = &t2[i];
        if !(x.amount == y.amount && bytes_eq(&x.asset, &y.asset) && address_eq(
            &x.receiver,
            &y.receiver,
        )) {
            proof {
                let m1 = t1@.map_values(|t: TransferToNamada| t@);
                let m2 = t2@.map_values(|t: TransferToNamada| t@);
                assert(m1[i as int] == t1@[i as int]@);
                assert(m2[i as int] == t2@[i as int]@);
            }
            return false;
        }
    }
    proof {
        assert(t1@.map_values(|t: TransferToNamada| t@) =~= t2@.map_values(
            |t: TransferToNamada| t@,
        ));
    }
    true
}

/// Whether two events are equal.
pub fn event_eq(a: &EthereumEvent, b: &EthereumEvent) -> (r: bool)
    ensures
        r <==> a@ == b@,
{
    match (a, b) {
        (
            EthereumEvent::TransfersToNamada { nonce: n1, transfers: t1 },
            EthereumEvent::TransfersToNamada { nonce: n2, transfers: t2 },
        ) => n1 == n2 && transfers_eq(t1, t2),
        (
            EthereumEvent::ValidatorSetUpdate { nonce: n1 },
            EthereumEvent::ValidatorSetUpdate { nonce: n2 },
        ) => n1 == n2,
        _ => false,
    }
}


/// Spec reader for a list of addresses, item by item.
pub open spec fn sdec_addresses(bs: Seq<Seq<u8>>) -> Option<Seq<AddressV>>
    decreases bs.len(),
{
    if bs.len() == 0 {
        Some(Seq::empty())
    } else {
        if sdec_address(bs[0]) is None {
            None
        } else {
            if sdec_addresses(bs.drop_first()) is None {
                None
            } else {
                Some(seq![sdec_address(bs[0])->Some_0] + sdec_addresses(bs.drop_first())->Some_0)
            }
        }
    }
}

/// Decoding encoded addresses yields the originals.
pub proof fn lemma_sdec_addresses_enc(addrs: Seq<AddressV>)
    requires
        forall|i: int| 0 <= i < addrs.len() ==> wf_address(#[trigger] addrs[i]),
    ensures
        sdec_addresses(addrs.map_values(|a: AddressV| enc_address(a))) == Some(addrs),
    decreases addrs.len(),
{
    let bs = addrs.map_values(|a: AddressV| enc_address(a));
    if addrs.len() == 0 {
        assert(Seq::<AddressV>::empty() =~= addrs);
    } else {
        assert(bs[0] == enc_address(addrs[0]));
        lemma_address_round_trip(addrs[0]);
        assert(bs.drop_first() =~= addrs.drop_first().map_values(|a: AddressV| enc_address(a)));
        lemma_sdec_addresses_enc(addrs.drop_first());
        assert(seq![addrs[0]] + addrs.drop_first() =~= addrs);
    }
}

/// Parses each buffer of a list as an address.
pub fn decode_addresses(items: &Vec<Vec<u8>>) -> (r: Option<Vec<Address>>)
    ensures
        r matches Some(xs) ==> sdec_addresses(view_seqs(items@)) == Some(
            xs@.map_values(|a: Address| a@),
        ),
        r is None ==> sdec_addresses(view_seqs(items@)) is None,
{
    let ghost bs = view_seqs(items@);
    let mut addrs: Vec<Address> = Vec::new();
    let n = items.len();
    proof {
        assert(bs.skip(0) =~= bs);
        if sdec_addresses(bs) is Some {
            let r0 = sdec_addresses(bs)->Some_0;
            assert(addrs@.map_values(|a: Address| a@) + r0 =~= r0);
        }
    }
    for i in 0..n
        invariant
            n == items@.len(),
            bs == view_seqs(items@),
            addrs@.len() == i,
            sdec_addresses(bs) == (match sdec_addresses(bs.skip(i as int)) {
                None => None::<Seq<AddressV>>,
                Some(rest) => Some(addrs@.map_values(|a: Address| a@) + rest),
            }),
    {
        proof {
            assert(bs.skip(i as int)[0] == bs[i as int]);
            assert(bs.skip(i as int).drop_first() =~= bs.skip(i + 1));
        }
        let a = match Address::decode(&items[i]) {
            Some(a) => a,
            None => {
                proof {
                    assert(sdec_addresses(bs.skip(i as int)) is None);
                }
                return None;
            },
        };
        let ghost old_as = addrs@;
        addrs.push(a);
        proof {
            assert(addrs@ =~= old_as.push(a));
            if sdec_addresses(bs.skip(i + 1)) is Some {
                let rest = sdec_addresses(bs.skip(i + 1))->Some_0;
                assert(sdec_addresses(bs.skip(i as int)) == Some(seq![a@] + rest));
                assert(old_as.map_values(|x: Address| x@) + (seq![a@] + rest) =~= addrs@
                    .map_values(|x: Address| x@) + rest);
            }
        }
    }
    proof {
        assert(bs.skip(n as int) =~= Seq::<Seq<u8>>::empty());
        assert(addrs@.map_values(|a: Address| a@) + Seq::<AddressV>::empty() =~= addrs@
            .map_values(|a: Address| a@));
    }
    Some(addrs)
}

/// Serializes each address of a list.
pub fn encode_addresses(addrs: &Vec<Address>) -> (r: Vec<Vec<u8>>)
    ensures
        view_seqs(r@) == addrs@.map_values(|a: Address| a@).map_values(
            |a: AddressV| enc_address(a),
        ),
{
    let mut items: Vec<Vec<u8>> = Vec::new();
    let n = addrs.len();
    for i in 0..n
        invariant
            n == addrs@.len(),
            items@.len() == i,
            forall|k: int| 0 <= k < i ==> view_seqs(items@)[k] == enc_address(
                #[trigger] addrs@[k]@,
            ),
    {
        let item = addrs[i].encode();
        items.push(item);
    }
    proof {
        assert(view_seqs(items@) =~= addrs@.map_values(|a: Address| a@).map_values(
            |a: AddressV| enc_address(a),
        ));
    }
    items
}

/// A vote extension: the events one validator observed, stamped with its
/// address and with the last committed height.
#[derive(Clone, Debug)]
pub struct Vext {
    /// The issuing validator.
    pub validator_addr: Address,
    /// The validator's view of the last committed block height.
    pub block_height: u64,
    /// The observed events, deduplicated and in canonical order.
    pub ethereum_events: Vec<EthereumEvent>,
}

/// The mathematical value of a vote extension.
pub struct VextV {
    pub validator_addr: AddressV,
    pub block_height: u64,
    pub ethereum_events: Seq<EthereumEventV>,
}

impl View for Vext {
    type V = VextV;

    open spec fn view(&self) -> VextV {
        VextV {
            validator_addr: self.validator_addr@,
            block_height: self.block_height,
            ethereum_events: self.ethereum_events@.map_values(|e: EthereumEvent| e@),
        }
    }
}

/// The canonical encoding of a vote extension; a signature covers exactly
/// these bytes.
pub open spec fn enc_vext(v: VextV) -> Seq<u8> {
    enc_bytes(enc_address(v.validator_addr)) + enc_le(v.block_height as nat, 8) + enc_list(
        v.ethereum_events.map_values(|e: EthereumEventV| enc_event(e)),
    )
}

impl Vext {
    /// Serializes the vote extension canonically.
    pub fn encode(&self) -> (r: Vec<u8>)
        ensures
            r@ == enc_vext(self@),
    {
        let mut out: Vec<u8> = Vec::new();
        let ab = self.validator_addr.encode();
        write_bytes(&mut out, &ab);
        write_u64(&mut out, self.block_height);
        let mut items: Vec<Vec<u8>> = Vec::new();
        let n = self.ethereum_events.len();
        for i in 0..n
            invariant
                n == self.ethereum_events@.len(),
                items@.len() == i,
                forall|k: int| 0 <= k < i ==> view_seqs(items@)[k] == enc_event(
                    #[trigger] self.ethereum_events@[k]@,
                ),
        {
            let item = self.ethereum_events[i].encode();
            items.push(item);
        }
        proof {
            assert(view_seqs(items@) =~= self.ethereum_events@.map_values(
                |e: EthereumEvent| e@,
            ).map_values(|e: EthereumEventV| enc_event(e)));
        }
        write_list(&mut out, &items);
        proof {
            assert(out@ =~= enc_vext(self@));
        }
        out
    }
}

/// A vote extension together with its issuer's signature over the
/// canonical encoding.
#[derive(Clone, Debug)]
pub struct SignedVext {
    /// The signed payload.
    pub data: Vext,
    /// The signature over the payload's canonical encoding.
    pub sig: Vec<u8>,
}

/// The mathematical value of a signed vote extension.
pub struct SignedVextV {
    pub data: VextV,
    pub sig: Seq<u8>,
}

impl View for SignedVext {
    type V = SignedVextV;

    open spec fn view(&self) -> SignedVextV {
        SignedVextV { data: self.data@, sig: self.sig@ }
    }
}

impl SignedVext {
    /// Signs a vote extension with a 32-byte secret key.
    pub fn sign(data: Vext, sk: &Vec<u8>) -> (r: SignedVext)
        requires
            sk@.len() == 32,
        ensures
            r.data@ == data@,
            r.sig@ == ed_sign(sk@, enc_vext(data@)),
            ed_verify(crate::crypto::ed_pubkey(sk@), enc_vext(r.data@), r.sig@),
    {
        let bytes = data.encode();
        let sig = ed_sign_bytes(sk, &bytes);
        SignedVext { data, sig }
    }

    /// Whether the signature verifies under the given public key.
    pub fn verify(&self, pk: &Vec<u8>) -> (r: bool)
        ensures
            r == ed_verify(pk@, enc_vext(self.data@), self.sig@),
    {
        let bytes = self.data.encode();
        ed_verify_bytes(pk, &bytes, &self.sig)
    }
}

/// An event together with the validators that vouched for it.
#[derive(Clone, Debug)]
pub struct MultiSignedEthEvent {
    /// The observed event.
    pub event: EthereumEvent,
    /// The validators whose extensions carried the event.
    pub signers: Vec<Address>,
}

/// The mathematical value of a multi-signed event.
pub struct MultiSignedEthEventV {
    pub event: EthereumEventV,
    pub signers: Seq<AddressV>,
}

impl View for MultiSignedEthEvent {
    type V = MultiSignedEthEventV;

    open spec fn view(&self) -> MultiSignedEthEventV {
        MultiSignedEthEventV {
            event: self.event@,
            signers: self.signers@.map_values(|a: Address| a@),
        }
    }
}

/// The canonical encoding of a multi-signed event, as a whole buffer.
pub open spec fn enc_mse(m: MultiSignedEthEventV) -> Seq<u8> {
    enc_bytes(enc_event(m.event)) + enc_list(m.signers.map_values(|a: AddressV| enc_address(a)))
}

/// Spec reader for a whole multi-signed-event buffer.
pub open spec fn sdec_mse(s: Seq<u8>) -> Option<MultiSignedEthEventV> {
    if sdec_bytes(s) is None {
        None
    } else {
        let (eb, i) = sdec_bytes(s)->Some_0;
        if sdec_list(s.skip(i)) is None {
            None
        } else {
            let (items, j) = sdec_list(s.skip(i))->Some_0;
            if i + j == s.len() && sdec_event(eb) is Some && sdec_addresses(items) is Some {
                Some(
                    MultiSignedEthEventV {
                        event: sdec_event(eb)->Some_0,
                        signers: sdec_addresses(items)->Some_0,
                    },
                )
            } else {
                None
            }
        }
    }
}

/// Whether a multi-signed event is well formed: a well-formed event and a
/// bounded list of well-formed signers.
pub open spec fn wf_mse(m: MultiSignedEthEventV) -> bool {
    &&& wf_event(m.event)
    &&& m.signers.len() <= 0xFFFF
    &&& forall|i: int| 0 <= i < m.signers.len() ==> wf_address(#[trigger] m.signers[i])
}

/// An encoded multi-signed event fits in a bounded buffer.
pub proof fn lemma_mse_enc_len(m: MultiSignedEthEventV)
    requires
        wf_mse(m),
    ensures
        enc_mse(m).len() <= 0x20000000000,
{
    lemma_event_enc_len(m.event);
    lemma_enc_le_len(enc_event(m.event).len(), 8);
    let bs = m.signers.map_values(|a: AddressV| enc_address(a));
    assert(forall|i: int| 0 <= i < bs.len() ==> (#[trigger] bs[i]).len() <= 73) by {
        assert forall|i: int| 0 <= i < bs.len() implies (#[trigger] bs[i]).len() <= 73 by {
            crate::address::lemma_address_enc_len(m.signers[i]);
        };
    };
    crate::bytes::lemma_enc_items_len_bound(bs, 73);
    lemma_enc_le_len(bs.len(), 8);
    assert(bs.len() * 81 <= 0xFFFF * 81) by (nonlinear_arith)
        requires
            bs.len() <= 0xFFFF,
    ;
}

/// Decoding an encoded multi-signed event yields the original.
pub proof fn lemma_mse_round_trip(m: MultiSignedEthEventV)
    requires
        wf_mse(m),
    ensures
        sdec_mse(enc_mse(m)) == Some(m),
{
    lemma_pow256_8();
    let s = enc_mse(m);
    let eb = enc_event(m.event);
    let bs = m.signers.map_values(|a: AddressV| enc_address(a));
    assert(eb.len() < pow256(8)) by {
        lemma_event_enc_len(m.event);
    };
    assert(s =~= enc_bytes(eb) + (enc_list(bs) + Seq::<u8>::empty()));
    lemma_sdec_bytes_enc(eb, enc_list(bs) + Seq::<u8>::empty());
    lemma_enc_le_len(eb.len(), 8);
    let i = 8 + eb.len() as int;
    assert(s.skip(i) =~= enc_list(bs) + Seq::<u8>::empty());
    assert(wf_items(bs)) by {
        assert forall|k: int| 0 <= k < bs.len() implies (#[trigger] bs[k]).len() < pow256(8) by {
            crate::address::lemma_address_enc_len(m.signers[k]);
        };
    };
    lemma_sdec_list_enc(bs, Seq::<u8>::empty());
    lemma_event_round_trip(m.event);
    lemma_sdec_addresses_enc(m.signers);
    assert(i + enc_list(bs).len() == s.len());
}

impl MultiSignedEthEvent {
    /// Serializes the multi-signed event canonically.
    pub fn encode(&self) -> (r: Vec<u8>)
        ensures
            r@ == enc_mse(self@),
    {
        let mut out: Vec<u8> = Vec::new();
        let eb = self.event.encode();
        write_bytes(&mut out, &eb);
        let items = encode_addresses(&self.signers);
        write_list(&mut out, &items);
        proof {
            assert(out@ =~= enc_mse(self@));
        }
        out
    }

    /// Parses a whole buffer as a multi-signed event.
    pub fn decode(buf: &Vec<u8>) -> (r: Option<MultiSignedEthEvent>)
        ensures
            r matches Some(m) ==> sdec_mse(buf@) == Some(m@),
            r is None ==> sdec_mse(buf@) is None,
    {
        let mut pos: usize = 0;
        proof {
            assert(buf@.skip(0) =~= buf@);
        }
        let eb = match read_bytes(buf, &mut pos) {
            Some(b) => b,
            None => {
                return None;
            },
        };
        proof {
            assert(buf@.subrange(0, pos as int) == enc_bytes(eb@));
            assert(buf@ =~= enc_bytes(eb@) + buf@.skip(pos as int));
            assert(eb@.len() < pow256(8)) by {
                lemma_pow256_8();
            };
            lemma_sdec_bytes_enc(eb@, buf@.skip(pos as int));
            lemma_enc_le_len(eb@.len(), 8);
        }
        let ghost i = pos as int;
        let items = match read_list(buf, &mut pos) {
            Some(v) => v,
            None => {
                return None;
            },
        };
        if pos != buf.len() {
            return None;
        }
        let event = match EthereumEvent::decode(&eb) {
            Some(e) => e,
            None => {
                return None;
            },
        };
        let signers = match decode_addresses(&items) {
            Some(a) => a,
            None => {
                return None;
            },
        };
        Some(MultiSignedEthEvent { event, signers })
    }
}


/// The canonical encoding of one digest signature entry: the signer's
/// address and its signature bytes.
pub open spec fn enc_sig_entry(e: (AddressV, Seq<u8>)) -> Seq<u8> {
    enc_bytes(enc_address(e.0)) + enc_bytes(e.1)
}

/// Spec reader for a whole signature-entry buffer.
pub open spec fn sdec_sig_entry(s: Seq<u8>) -> Option<(AddressV, Seq<u8>)> {
    if sdec_bytes(s) is None {
        None
    } else {
        let (ab, i) = sdec_bytes(s)->Some_0;
        if sdec_bytes(s.skip(i)) is None {
            None
        } else {
            let (sig, j) = sdec_bytes(s.skip(i))->Some_0;
            if i + j == s.len() && sdec_address(ab) is Some {
                Some((sdec_address(ab)->Some_0, sig))
            } else {
                None
            }
        }
    }
}

/// Whether a signature entry is well formed.
pub open spec fn wf_sig_entry(e: (AddressV, Seq<u8>)) -> bool {
    wf_address(e.0) && e.1.len() <= 64
}

/// Decoding an encoded signature entry yields the original.
pub proof fn lemma_sig_entry_round_trip(e: (AddressV, Seq<u8>))
    requires
        wf_sig_entry(e),
    ensures
        sdec_sig_entry(enc_sig_entry(e)) == Some(e),
{
    lemma_pow256_8();
    let s = enc_sig_entry(e);
    let ab = enc_address(e.0);
    assert(ab.len() < pow256(8)) by {
        crate::address::lemma_address_enc_len(e.0);
    };
    assert(s =~= enc_bytes(ab) + (enc_bytes(e.1) + Seq::<u8>::empty()));
    lemma_sdec_bytes_enc(ab, enc_bytes(e.1) + Seq::<u8>::empty());
    lemma_enc_le_len(ab.len(), 8);
    let i = 8 + ab.len() as int;
    assert(s.skip(i) =~= enc_bytes(e.1) + Seq::<u8>::empty());
    lemma_sdec_bytes_enc(e.1, Seq::<u8>::empty());
    lemma_enc_le_len(e.1.len(), 8);
    lemma_address_round_trip(e.0);
    assert(i + (8 + e.1.len()) == s.len());
}

/// Spec reader for a list of signature entries.
pub open spec fn sdec_sig_entries(bs: Seq<Seq<u8>>) -> Option<Seq<(AddressV, Seq<u8>)>>
    decreases bs.len(),
{
    if bs.len() == 0 {
        Some(Seq::empty())
    } else {
        if sdec_sig_entry(bs[0]) is None {
            None
        } else {
            if sdec_sig_entries(bs.drop_first()) is None {
                None
            } else {
                Some(
                    seq![sdec_sig_entry(bs[0])->Some_0] + sdec_sig_entries(
                        bs.drop_first(),
                    )->Some_0,
                )
            }
        }
    }
}

/// Decoding encoded signature entries yields the originals.
pub proof fn lemma_sdec_sig_entries_enc(es: Seq<(AddressV, Seq<u8>)>)
    requires
        forall|i: int| 0 <= i < es.len() ==> wf_sig_entry(#[trigger] es[i]),
    ensures
        sdec_sig_entries(es.map_values(|e: (AddressV, Seq<u8>)| enc_sig_entry(e))) == Some(es),
    decreases es.len(),
{
    let bs = es.map_values(|e: (AddressV, Seq<u8>)| enc_sig_entry(e));
    if es.len() == 0 {
        assert(Seq::<(AddressV, Seq<u8>)>::empty() =~= es);
    } else {
        assert(bs[0] == enc_sig_entry(es[0]));
        lemma_sig_entry_round_trip(es[0]);
        assert(bs.drop_first() =~= es.drop_first().map_values(
            |e: (AddressV, Seq<u8>)| enc_sig_entry(e),
        ));
        lemma_sdec_sig_entries_enc(es.drop_first());
        assert(seq![es[0]] + es.drop_first() =~= es);
    }
}

/// Spec reader for a list of multi-signed events.
pub open spec fn sdec_mses(bs: Seq<Seq<u8>>) -> Option<Seq<MultiSignedEthEventV>>
    decreases bs.len(),
{
    if bs.len() == 0 {
        Some(Seq::empty())
    } else {
        if sdec_mse(bs[0]) is None {
            None
        } else {
            if sdec_mses(bs.drop_first()) is None {
                None
            } else {
                Some(seq![sdec_mse(bs[0])->Some_0] + sdec_mses(bs.drop_first())->Some_0)
            }
        }
    }
}

/// Decoding encoded multi-signed events yields the originals.
pub proof fn lemma_sdec_mses_enc(ms: Seq<MultiSignedEthEventV>)
    requires
        forall|i: int| 0 <= i < ms.len() ==> wf_mse(#[trigger] ms[i]),
    ensures
        sdec_mses(ms.map_values(|m: MultiSignedEthEventV| enc_mse(m))) == Some(ms),
    decreases ms.len(),
{
    let bs = ms.map_values(|m: MultiSignedEthEventV| enc_mse(m));
    if ms.len() == 0 {
        assert(Seq::<MultiSignedEthEventV>::empty() =~= ms);
    } else {
        assert(bs[0] == enc_mse(ms[0]));
        lemma_mse_round_trip(ms[0]);
        assert(bs.drop_first() =~= ms.drop_first().map_values(
            |m: MultiSignedEthEventV| enc_mse(m),
        ));
        lemma_sdec_mses_enc(ms.drop_first());
        assert(seq![ms[0]] + ms.drop_first() =~= ms);
    }
}

/// The digest of the vote extensions of one block: each event with its
/// signer set, and every issuing validator's signature.
#[derive(Clone, Debug)]
pub struct VextDigest {
    /// The observed events with their signers.
    pub events: Vec<MultiSignedEthEvent>,
    /// Each issuing validator's signature over its own extension.
    pub signatures: Vec<(Address, Vec<u8>)>,
}

/// The mathematical value of a digest.
pub struct VextDigestV {
    pub events: Seq<MultiSignedEthEventV>,
    pub signatures: Seq<(AddressV, Seq<u8>)>,
}

impl View for VextDigest {
    type V = VextDigestV;

    open spec fn view(&self) -> VextDigestV {
        VextDigestV {
            events: self.events@.map_values(|m: MultiSignedEthEvent| m@),
            signatures: self.signatures@.map_values(
                |e: (Address, Vec<u8>)| (e.0@, e.1@),
            ),
        }
    }
}

/// The canonical encoding of a digest, as a whole buffer.
pub open spec fn enc_digest(d: VextDigestV) -> Seq<u8> {
    enc_list(d.events.map_values(|m: MultiSignedEthEventV| enc_mse(m))) + enc_list(
        d.signatures.map_values(|e: (AddressV, Seq<u8>)| enc_sig_entry(e)),
    )
}

/// Spec reader for a whole digest buffer.
pub open spec fn sdec_digest(s: Seq<u8>) -> Option<VextDigestV> {
    if sdec_list(s) is None {
        None
    } else {
        let (ebs, i) = sdec_list(s)->Some_0;
        if sdec_list(s.skip(i)) is None {
            None
        } else {
            let (sbs, j) = sdec_list(s.skip(i))->Some_0;
            if i + j == s.len() && sdec_mses(ebs) is Some && sdec_sig_entries(sbs) is Some {
                Some(
                    VextDigestV {
                        events: sdec_mses(ebs)->Some_0,
                        signatures: sdec_sig_entries(sbs)->Some_0,
                    },
                )
            } else {
                None
            }
        }
    }
}

/// Whether a digest is well formed: bounded lists of well-formed entries.
pub open spec fn wf_digest(d: VextDigestV) -> bool {
    &&& d.events.len() <= 0xFFFF
    &&& forall|i: int| 0 <= i < d.events.len() ==> wf_mse(#[trigger] d.events[i])
    &&& d.signatures.len() <= 0xFFFF
    &&& forall|i: int| 0 <= i < d.signatures.len() ==> wf_sig_entry(#[trigger] d.signatures[i])
}

/// An encoded digest fits in a bounded buffer.
pub proof fn lemma_digest_enc_len(d: VextDigestV)
    requires
        wf_digest(d),
    ensures
        enc_digest(d).len() <= 0x400000000000000,
{
    let ebs = d.events.map_values(|m: MultiSignedEthEventV| enc_mse(m));
    let sbs = d.signatures.map_values(|e: (AddressV, Seq<u8>)| enc_sig_entry(e));
    assert(forall|i: int| 0 <= i < ebs.len() ==> (#[trigger] ebs[i]).len() <= 0x20000000000) by {
        assert forall|i: int| 0 <= i < ebs.len() implies (#[trigger] ebs[i]).len()
            <= 0x20000000000 by {
            lemma_mse_enc_len(d.events[i]);
        };
    };
    crate::bytes::lemma_enc_items_len_bound(ebs, 0x20000000000);
    assert(forall|i: int| 0 <= i < sbs.len() ==> (#[trigger] sbs[i]).len() <= 153) by {
        assert forall|i: int| 0 <= i < sbs.len() implies (#[trigger] sbs[i]).len() <= 153 by {
            lemma_sig_entry_enc_len(d.signatures[i]);
        };
    };
    crate::bytes::lemma_enc_items_len_bound(sbs, 153);
    lemma_enc_le_len(ebs.len(), 8);
    lemma_enc_le_len(sbs.len(), 8);
    assert(ebs.len() * (8 + 0x20000000000) <= 0xFFFF * (8 + 0x20000000000)) by (nonlinear_arith)
        requires
            ebs.len() <= 0xFFFF,
    ;
    assert(sbs.len() * 161 <= 0xFFFF * 161) by (nonlinear_arith)
        requires
            sbs.len() <= 0xFFFF,
    ;
}

/// An encoded signature entry fits in a bounded buffer.
pub proof fn lemma_sig_entry_enc_len(e: (AddressV, Seq<u8>))
    requires
        wf_sig_entry(e),
    ensures
        enc_sig_entry(e).len() <= 153,
{
    crate::address::lemma_address_enc_len(e.0);
    lemma_enc_le_len(enc_address(e.0).len(), 8);
    lemma_enc_le_len(e.1.len(), 8);
}

/// Decoding an encoded digest yields the original: the digest carried by
/// a protocol transaction is pinned down by its bytes.
pub proof fn lemma_digest_round_trip(d: VextDigestV)
    requires
        wf_digest(d),
    ensures
        sdec_digest(enc_digest(d)) == Some(d),
{
    lemma_pow256_8();
    let s = enc_digest(d);
    let ebs = d.events.map_values(|m: MultiSignedEthEventV| enc_mse(m));
    let sbs = d.signatures.map_values(|e: (AddressV, Seq<u8>)| enc_sig_entry(e));
    assert(wf_items(ebs)) by {
        assert forall|k: int| 0 <= k < ebs.len() implies (#[trigger] ebs[k]).len() < pow256(
            8,
        ) by {
            lemma_mse_enc_len(d.events[k]);
        };
    };
    assert(wf_items(sbs)) by {
        assert forall|k: int| 0 <= k < sbs.len() implies (#[trigger] sbs[k]).len() < pow256(
            8,
        ) by {
            lemma_sig_entry_enc_len(d.signatures[k]);
        };
    };
    assert(s =~= enc_list(ebs) + (enc_list(sbs) + Seq::<u8>::empty()));
    lemma_sdec_list_enc(ebs, enc_list(sbs) + Seq::<u8>::empty());
    let i = enc_list(ebs).len() as int;
    assert(s.skip(i) =~= enc_list(sbs) + Seq::<u8>::empty());
    lemma_sdec_list_enc(sbs, Seq::<u8>::empty());
    lemma_sdec_mses_enc(d.events);
    lemma_sdec_sig_entries_enc(d.signatures);
    assert(i + enc_list(sbs).len() == s.len());
}

impl VextDigest {
    /// Serializes the digest canonically.
    pub fn encode(&self) -> (r: Vec<u8>)
        ensures
            r@ == enc_digest(self@),
    {
        let mut out: Vec<u8> = Vec::new();
        let mut eitems: Vec<Vec<u8>> = Vec::new();
        let n = self.events.len();
        for i in 0..n
            invariant
                n == self.events@.len(),
                eitems@.len() == i,
                forall|k: int| 0 <= k < i ==> view_seqs(eitems@)[k] == enc_mse(
                    #[trigger] self.events@[k]@,
                ),
        {
            let item = self.events[i].encode();
            eitems.push(item);
        }
        proof {
            assert(view_seqs(eitems@) =~= self.events@.map_values(
                |m: MultiSignedEthEvent| m@,
            ).map_values(|m: MultiSignedEthEventV| enc_mse(m)));
        }
        write_list(&mut out, &eitems);
        let mut sitems: Vec<Vec<u8>> = Vec::new();
        let m = self.signatures.len();
        for i in 0..m
            invariant
                m == self.signatures@.len(),
                sitems@.len() == i,
                forall|k: int| 0 <= k < i ==> view_seqs(sitems@)[k] == enc_sig_entry(
                    (#[trigger] self.signatures@[k].0@, self.signatures@[k].1@),
                ),
        {
            let mut item: Vec<u8> = Vec::new();
            let ab = self.signatures[i].0.encode();
            write_bytes(&mut item, &ab);
            write_bytes(&mut item, &self.signatures[i].1);
            proof {
                assert(item@ =~= enc_sig_entry(
                    (self.signatures@[i as int].0@, self.signatures@[i as int].1@),
                ));
            }
            sitems.push(item);
        }
        proof {
            assert(view_seqs(sitems@) =~= self.signatures@.map_values(
                |e: (Address, Vec<u8>)| (e.0@, e.1@),
            ).map_values(|e: (AddressV, Seq<u8>)| enc_sig_entry(e)));
        }
        write_list(&mut out, &sitems);
        proof {
            assert(out@ =~= enc_digest(self@));
        }
        out
    }

    /// Parses a whole buffer as a digest.
    pub fn decode(buf: &Vec<u8>) -> (r: Option<VextDigest>)
        ensures
            r matches Some(d) ==> sdec_digest(buf@) == Some(d@),
            r is None ==> sdec_digest(buf@) is None,
    {
        let mut pos: usize = 0;
        proof {
            assert(buf@.skip(0) =~= buf@);
        }
        let eitems = match read_list(buf, &mut pos) {
            Some(v) => v,
            None => {
                return None;
            },
        };
        let ghost i = pos as int;
        let sitems = match read_list(buf, &mut pos) {
            Some(v) => v,
            None => {
                return None;
            },
        };
        if pos != buf.len() {
            return None;
        }
        let events = match decode_mses(&eitems) {
            Some(v) => v,
            None => {
                return None;
            },
        };
        let signatures = match decode_sig_entries(&sitems) {
            Some(v) => v,
            None => {
                return None;
            },
        };
        Some(VextDigest { events, signatures })
    }
}

/// Parses each buffer of a list as a multi-signed event.
pub fn decode_mses(items: &Vec<Vec<u8>>) -> (r: Option<Vec<MultiSignedEthEvent>>)
    ensures
        r matches Some(ms) ==> sdec_mses(view_seqs(items@)) == Some(
            ms@.map_values(|m: MultiSignedEthEvent| m@),
        ),
        r is None ==> sdec_mses(view_seqs(items@)) is None,
{
    let ghost bs = view_seqs(items@);
    let mut out: Vec<MultiSignedEthEvent> = Vec::new();
    let n = items.len();
    proof {
        assert(bs.skip(0) =~= bs);
        if sdec_mses(bs) is Some {
            let r0 = sdec_mses(bs)->Some_0;
            assert(out@.map_values(|m: MultiSignedEthEvent| m@) + r0 =~= r0);
        }
    }
    for i in 0..n
        invariant
            n == items@.len(),
            bs == view_seqs(items@),
            out@.len() == i,
            sdec_mses(bs) == (match sdec_mses(bs.skip(i as int)) {
                None => None::<Seq<MultiSignedEthEventV>>,
                Some(rest) => Some(out@.map_values(|m: MultiSignedEthEvent| m@) + rest),
            }),
    {
        proof {
            assert(bs.skip(i as int)[0] == bs[i as int]);
            assert(bs.skip(i as int).drop_first() =~= bs.skip(i + 1));
        }
        let m = match MultiSignedEthEvent::decode(&items[i]) {
            Some(m) => m,
            None => {
                proof {
                    assert(sdec_mses(bs.skip(i as int)) is None);
                }
                return None;
            },
        };
        let ghost old_out = out@;
        out.push(m);
        proof {
            assert(out@ =~= old_out.push(m));
            if sdec_mses(bs.skip(i + 1)) is Some {
                let rest = sdec_mses(bs.skip(i + 1))->Some_0;
                assert(sdec_mses(bs.skip(i as int)) == Some(seq![m@] + rest));
                assert(old_out.map_values(|x: MultiSignedEthEvent| x@) + (seq![m@] + rest)
                    =~= out@.map_values(|x: MultiSignedEthEvent| x@) + rest);
            }
        }
    }
    proof {
        assert(bs.skip(n as int) =~= Seq::<Seq<u8>>::empty());
        assert(out@.map_values(|m: MultiSignedEthEvent| m@)
            + Seq::<MultiSignedEthEventV>::empty() =~= out@.map_values(
            |m: MultiSignedEthEvent| m@,
        ));
    }
    Some(out)
}

/// Parses each buffer of a list as a signature entry.
pub fn decode_sig_entries(items: &Vec<Vec<u8>>) -> (r: Option<Vec<(Address, Vec<u8>)>>)
    ensures
        r matches Some(es) ==> sdec_sig_entries(view_seqs(items@)) == Some(
            es@.map_values(|e: (Address, Vec<u8>)| (e.0@, e.1@)),
        ),
        r is None ==> sdec_sig_entries(view_seqs(items@)) is None,
{
    let ghost bs = view_seqs(items@);
    let mut out: Vec<(Address, Vec<u8>)> = Vec::new();
    let n = items.len();
    proof {
        assert(bs.skip(0) =~= bs);
        if sdec_sig_entries(bs) is Some {
            let r0 = sdec_sig_entries(bs)->Some_0;
            assert(out@.map_values(|e: (Address, Vec<u8>)| (e.0@, e.1@)) + r0 =~= r0);
        }
    }
    for i in 0..n
        invariant
            n == items@.len(),
            bs == view_seqs(items@),
            out@.len() == i,
            sdec_sig_entries(bs) == (match sdec_sig_entries(bs.skip(i as int)) {
                None => None::<Seq<(AddressV, Seq<u8>)>>,
                Some(rest) => Some(
                    out@.map_values(|e: (Address, Vec<u8>)| (e.0@, e.1@)) + rest,
                ),
            }),
    {
        proof {
            assert(bs.skip(i as int)[0] == bs[i as int]);
            assert(bs.skip(i as int).drop_first() =~= bs.skip(i + 1));
        }
        let e = match decode_sig_entry(&items[i]) {
            Some(e) => e,
            None => {
                proof {
                    assert(sdec_sig_entries(bs.skip(i as int)) is None);
                }
                return None;
            },
        };
        let ghost old_out = out@;
        out.push(e);
        proof {
            assert(out@ =~= old_out.push(e));
            if sdec_sig_entries(bs.skip(i + 1)) is Some {
                let rest = sdec_sig_entries(bs.skip(i + 1))->Some_0;
                assert(sdec_sig_entries(bs.skip(i as int)) == Some(
                    seq![(e.0@, e.1@)] + rest,
                ));
                assert(old_out.map_values(|x: (Address, Vec<u8>)| (x.0@, x.1@)) + (seq![
                    (e.0@, e.1@),
                ] + rest) =~= out@.map_values(|x: (Address, Vec<u8>)| (x.0@, x.1@)) + rest);
            }
        }
    }
    proof {
        assert(bs.skip(n as int) =~= Seq::<Seq<u8>>::empty());
        assert(out@.map_values(|e: (Address, Vec<u8>)| (e.0@, e.1@))
            + Seq::<(AddressV, Seq<u8>)>::empty() =~= out@.map_values(
            |e: (Address, Vec<u8>)| (e.0@, e.1@),
        ));
    }
    Some(out)
}

/// Parses a whole buffer as a signature entry.
pub fn decode_sig_entry(buf: &Vec<u8>) -> (r: Option<(Address, Vec<u8>)>)
    ensures
        r matches Some(e) ==> sdec_sig_entry(buf@) == Some((e.0@, e.1@)),
        r is None ==> sdec_sig_entry(buf@) is None,
{
    let mut pos: usize = 0;
    proof {
        assert(buf@.skip(0) =~= buf@);
    }
    let ab = match read_bytes(buf, &mut pos) {
        Some(b) => b,
        None => {
            return None;
        },
    };
    proof {
        assert(buf@.subrange(0, pos as int) == enc_bytes(ab@));
        assert(buf@ =~= enc_bytes(ab@) + buf@.skip(pos as int));
        assert(ab@.len() < pow256(8)) by {
            lemma_pow256_8();
        };
        lemma_sdec_bytes_enc(ab@, buf@.skip(pos as int));
        lemma_enc_le_len(ab@.len(), 8);
    }
    let ghost i = pos as int;
    let sig = match read_bytes(buf, &mut pos) {
        Some(b) => b,
        None => {
            return None;
        },
    };
    proof {
        assert(buf@.subrange(i, pos as int) == enc_bytes(sig@));
        assert(buf@.skip(i) =~= enc_bytes(sig@) + buf@.skip(pos as int));
        assert(sig@.len() < pow256(8)) by {
            lemma_pow256_8();
        };
        lemma_sdec_bytes_enc(sig@, buf@.skip(pos as int));
        lemma_enc_le_len(sig@.len(), 8);
    }
    if pos != buf.len() {
        return None;
    }
    let addr = match Address::decode(&ab) {
        Some(a) => a,
        None => {
            return None;
        },
    };
    Some((addr, sig))
}

} // verus!
