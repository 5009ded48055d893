//! The transaction model and its canonical encoding.
//!
//! A transaction carries code (literal or by hash), optional data, a
//! timestamp, and two optional opaque inner blobs that hold an encrypted
//! payload until the next block. The canonical encoding is the single wire
//! form used for hashing, signing and storage; `lemma_raw_tx_round_trip`
//! pins it down: decoding an encoding yields the original, so the encoding
//! is deterministic and injective.

use vstd::prelude::*;
use crate::bytes::{
    enc_le, enc_bytes, enc_opt_bytes, sdec_u8, sdec_u64, sdec_bytes, sdec_opt_bytes, view_opt,
    pow256, lemma_pow256_8, lemma_sdec_u64_enc, lemma_sdec_bytes_enc, lemma_sdec_opt_bytes_enc,
    write_u64, write_bytes, write_opt_bytes, read_u8, read_u64, read_bytes, read_opt_bytes,
    bytes_eq,
};
use crate::crypto::{sha256, sha256_of, ed_sign, ed_sign_bytes, ed_verify, ed_verify_bytes};

verus! {

/// Why a buffer was not accepted as a transaction or gossip message.
#[derive(Clone, Debug, PartialEq, Eq, Structural)]
pub enum Error {
    /// The buffer is not a canonical transaction encoding.
    TxDecodingError,
    /// A field of the transaction could not be deserialized.
    TxDeserializingError,
    /// The buffer is not a canonical gossip-message encoding.
    DkgDecodingError,
    /// The gossip message carries no payload.
    NoDkgError,
    /// The transaction carries no timestamp.
    NoTimestampError,
    /// The timestamp's nanosecond part is out of range.
    InvalidTimestamp,
}

/// Expansion failed: the supplied code does not hash to the stored hash.
#[derive(Debug)]
pub struct InvalidCodeError;

/// Why a signature check failed.
#[derive(Clone, Debug, PartialEq, Eq, Structural)]
pub enum VerifySigError {
    /// The transaction has no data field to hold a signature.
    MissingData,
    /// The data field does not decode as signed data.
    DataDecodeError,
    /// The signature does not verify under the given key.
    InvalidSignature,
}

/// A UTC timestamp: seconds since the Unix epoch and sub-second nanoseconds.
#[derive(Clone, Copy, Debug, PartialEq, Eq, Structural)]
pub struct DateTimeUtc {
    pub secs: u64,
    pub nanos: u32,
}

impl DateTimeUtc {
    /// A timestamp is well formed when its nanosecond part is in range.
    pub open spec fn wf(self) -> bool {
        self.nanos < 1_000_000_000
    }

    /// The current wall-clock time.
    pub fn now() -> (r: DateTimeUtc)
        ensures
            r.wf(),
    {
        let (secs, nanos) = crate::crypto::current_time();
        DateTimeUtc { secs, nanos }
    }
}

/// The timestamp as the pair of integers the wire format carries.
pub open spec fn ts_view(t: DateTimeUtc) -> (u64, u64) {
    (t.secs, t.nanos as u64)
}

/// Transaction code: either the full code or its 32-byte hash.
#[derive(Clone, Debug)]
pub enum TxCode {
    /// A hash of transaction code.
    Hash(Vec<u8>),
    /// The full transaction code.
    Literal(Vec<u8>),
}

/// The mathematical value of a `TxCode`.
pub enum TxCodeV {
    Hash(Seq<u8>),
    Literal(Seq<u8>),
}

impl View for TxCode {
    type V = TxCodeV;

    open spec fn view(&self) -> TxCodeV {
        match self {
            TxCode::Hash(h) => TxCodeV::Hash(h@),
            TxCode::Literal(l) => TxCodeV::Literal(l@),
        }
    }
}

/// The hash that identifies a code value: the stored hash, or the digest of
/// the literal code.
pub open spec fn code_hash_of(c: TxCodeV) -> Seq<u8> {
    match c {
        TxCodeV::Hash(h) => h,
        TxCodeV::Literal(l) => sha256_of(l),
    }
}

impl TxCode {
    /// Get the literal transaction code if available.
    pub fn code(&self) -> (r: Option<Vec<u8>>)
        ensures
            match r {
                Some(c) => self@ matches TxCodeV::Literal(l) && c@ == l,
                None => self@ is Hash,
            },
    {
        match self {
            TxCode::Hash(_hash) => None,
            TxCode::Literal(lit) => Some(lit.clone()),
        }
    }

    /// Return the transaction code hash.
    pub fn code_hash(&self) -> (r: Vec<u8>)
        ensures
            r@ == code_hash_of(self@),
    {
        match self {
            TxCode::Hash(hash) => hash.clone(),
            TxCode::Literal(lit) => sha256(lit),
        }
    }

    /// Replace the stored hash by the supplied code, only if the code
    /// hashes to it.
    pub fn expand(&mut self, code: Vec<u8>) -> (r: Result<(), InvalidCodeError>)
        ensures
            r is Ok <==> sha256_of(code@) == code_hash_of(old(self)@),
            r is Ok ==> final(self)@ == TxCodeV::Literal(code@),
            r is Err ==> final(self)@ == old(self)@,
    {
        let digest = sha256(&code);
        let stored = self.code_hash();
        if bytes_eq(&digest, &stored) {
            *self = TxCode::Literal(code);
            Ok(())
        } else {
            Err(InvalidCodeError)
        }
    }

    /// Replace a literal code with its hash.
    pub fn contract(&mut self)
        ensures
            final(self)@ == TxCodeV::Hash(code_hash_of(old(self)@)),
    {
        let h = self.code_hash();
        *self = TxCode::Hash(h);
    }

    /// Whether this object contains the full code.
    pub fn is_literal(&self) -> (r: bool)
        ensures
            r == (self@ is Literal),
    {
        matches!(self, TxCode::Literal(_))
    }

    /// Whether this object only contains the hash of the code.
    pub fn is_hash(&self) -> (r: bool)
        ensures
            r == (self@ is Hash),
    {
        matches!(self, TxCode::Hash(_))
    }
}

impl PartialEq for TxCode {
    fn eq(&self, other: &TxCode) -> (r: bool) {
        match (self, other) {
            (TxCode::Hash(a), TxCode::Hash(b)) => bytes_eq(a, b),
            (TxCode::Literal(a), TxCode::Literal(b)) => bytes_eq(a, b),
            _ => false,
        }
    }
}

impl vstd::std_specs::cmp::PartialEqSpecImpl for TxCode {
    open spec fn obeys_eq_spec() -> bool {
        true
    }

    open spec fn eq_spec(&self, other: &TxCode) -> bool {
        self@ == other@
    }
}

impl Eq for TxCode {

}

/// The wire form of a transaction: the fields in canonical order.
pub struct RawTxView {
    pub code: Seq<u8>,
    pub is_code_hash: bool,
    pub data: Option<Seq<u8>>,
    pub timestamp: Option<(u64, u64)>,
    pub inner_tx: Option<Seq<u8>>,
    pub inner_tx_code: Option<Seq<u8>>,
}

/// The wire form as a struct of plain values, used where a transaction may
/// lack a timestamp (the canonical encoding admits it; `Tx` does not).
pub struct RawTx {
    pub code: Vec<u8>,
    pub is_code_hash: bool,
    pub data: Option<Vec<u8>>,
    pub timestamp: Option<(u64, u64)>,
    pub inner_tx: Option<Vec<u8>>,
    pub inner_tx_code: Option<Vec<u8>>,
}

impl View for RawTx {
    type V = RawTxView;

    open spec fn view(&self) -> RawTxView {
        RawTxView {
            code: self.code@,
            is_code_hash: self.is_code_hash,
            data: view_opt(self.data),
            timestamp: self.timestamp,
            inner_tx: view_opt(self.inner_tx),
            inner_tx_code: view_opt(self.inner_tx_code),
        }
    }
}

/// The presence tag of a boolean.
pub open spec fn bool_byte(b: bool) -> u8 {
    if b {
        1u8
    } else {
        0u8
    }
}

/// An optional timestamp: a presence tag, then seconds and nanoseconds.
pub open spec fn enc_opt_ts(o: Option<(u64, u64)>) -> Seq<u8> {
    match o {
        None => seq![0u8],
        Some((s, n)) => seq![1u8] + enc_le(s as nat, 8) + enc_le(n as nat, 8),
    }
}

/// Spec reader for an optional timestamp.
pub open spec fn sdec_opt_ts(s: Seq<u8>) -> Option<(Option<(u64, u64)>, int)> {
    match sdec_u8(s) {
        None => None,
        Some((tag, _i)) => if tag == 0 {
            Some((None, 1int))
        } else if tag == 1 {
            match sdec_u64(s.skip(1)) {
                None => None,
                Some((secs, _j)) => match sdec_u64(s.skip(9)) {
                    None => None,
                    Some((nanos, _k)) => Some((Some((secs, nanos)), 17int)),
                },
            }
        } else {
            None
        },
    }
}

/// Reading an encoded optional timestamp yields the option back.
pub proof fn lemma_sdec_opt_ts_enc(o: Option<(u64, u64)>, rest: Seq<u8>)
    ensures
        sdec_opt_ts(enc_opt_ts(o) + rest) == Some((o, enc_opt_ts(o).len() as int)),
{
    let s = enc_opt_ts(o) + rest;
    match o {
        None => {
            assert(s[0] == 0u8);
        },
        Some((secs, nanos)) => {
            crate::bytes::lemma_enc_le_len(secs as nat, 8);
            crate::bytes::lemma_enc_le_len(nanos as nat, 8);
            assert(s[0] == 1u8);
            assert(s.skip(1) =~= enc_le(secs as nat, 8) + (enc_le(nanos as nat, 8) + rest));
            lemma_sdec_u64_enc(secs, enc_le(nanos as nat, 8) + rest);
            assert(s.skip(9) =~= enc_le(nanos as nat, 8) + rest);
            lemma_sdec_u64_enc(nanos, rest);
            assert(enc_opt_ts(o).len() == 17);
        },
    }
}

/// The canonical encoding of a transaction's wire form: code, code-hash
/// flag, data, timestamp, then the two inner blobs.
pub open spec fn enc_raw_tx(t: RawTxView) -> Seq<u8> {
    enc_bytes(t.code) + seq![bool_byte(t.is_code_hash)] + enc_opt_bytes(t.data) + enc_opt_ts(
        t.timestamp,
    ) + enc_opt_bytes(t.inner_tx) + enc_opt_bytes(t.inner_tx_code)
}

/// Spec reader for a whole transaction buffer; trailing bytes are refused.
#[verifier::opaque]
pub open spec fn sdec_raw_tx(s: Seq<u8>) -> Option<RawTxView> {
    if sdec_bytes(s) is None {
        None
    } else {
        let (code, i1) = sdec_bytes(s)->Some_0;
        if sdec_u8(s.skip(i1)) is None {
            None
        } else {
            let (flag, _t) = sdec_u8(s.skip(i1))->Some_0;
            if flag > 1 {
                None
            } else {
                if sdec_opt_bytes(s.skip(i1 + 1)) is None {
                    None
                } else {
                    let (data, d) = sdec_opt_bytes(s.skip(i1 + 1))->Some_0;
                    if sdec_opt_ts(s.skip(i1 + 1 + d)) is None {
                        None
                    } else {
                        let (ts, e) = sdec_opt_ts(s.skip(i1 + 1 + d))->Some_0;
                        if sdec_opt_bytes(s.skip(i1 + 1 + d + e)) is None {
                            None
                        } else {
                            let (itx, f) = sdec_opt_bytes(s.skip(i1 + 1 + d + e))->Some_0;
                            if sdec_opt_bytes(s.skip(i1 + 1 + d + e + f)) is None {
                                None
                            } else {
                                let (itc, g) = sdec_opt_bytes(s.skip(i1 + 1 + d + e + f))->Some_0;
                                if i1 + 1 + d + e + f + g == s.len() {
                                    Some(
                                        RawTxView {
                                            code,
                                            is_code_hash: (flag == 1),
                                            data,
                                            timestamp: ts,
                                            inner_tx: itx,
                                            inner_tx_code: itc,
                                        },
                                    )
                                } else {
                                    None
                                }
                            }
                        }
                    }
                }
            }
        }
    }
}

/// Whether the wire form's fields fit under the length prefixes.
pub open spec fn wf_raw_tx(t: RawTxView) -> bool {
    &&& t.code.len() < pow256(8)
    &&& (t.data matches Some(b) ==> b.len() < pow256(8))
    &&& (t.inner_tx matches Some(b) ==> b.len() < pow256(8))
    &&& (t.inner_tx_code matches Some(b) ==> b.len() < pow256(8))
}

/// Decoding an encoded transaction yields the original: the canonical
/// encoding is injective and loses nothing.
#[verifier::rlimit(100)]
pub proof fn lemma_raw_tx_round_trip(t: RawTxView)
    requires
        wf_raw_tx(t),
    ensures
        sdec_raw_tx(enc_raw_tx(t)) == Some(t),
{
    reveal(sdec_raw_tx);
    let s = enc_raw_tx(t);
    let flag = bool_byte(t.is_code_hash);
    let r1 = seq![flag] + enc_opt_bytes(t.data) + enc_opt_ts(t.timestamp)
        + enc_opt_bytes(t.inner_tx) + enc_opt_bytes(t.inner_tx_code);
    assert(s =~= enc_bytes(t.code) + r1);
    crate::bytes::lemma_enc_le_len(t.code.len(), 8);
    lemma_sdec_bytes_enc(t.code, r1);
    let i1 = 8 + t.code.len() as int;
    assert(sdec_bytes(s) == Some((t.code, i1)));
    assert(s.skip(i1) =~= r1);
    assert(r1[0] == flag);
    assert(sdec_u8(s.skip(i1)) == Some((flag, 1int)));
    assert(flag <= 1 && (flag == 1) == t.is_code_hash);
    let r2 = enc_opt_ts(t.timestamp) + enc_opt_bytes(t.inner_tx) + enc_opt_bytes(t.inner_tx_code);
    assert(s.skip(i1 + 1) =~= enc_opt_bytes(t.data) + r2);
    lemma_sdec_opt_bytes_enc(t.data, r2);
    let d = enc_opt_bytes(t.data).len() as int;
    assert(sdec_opt_bytes(s.skip(i1 + 1)) == Some((t.data, d)));
    let r3 = enc_opt_bytes(t.inner_tx) + enc_opt_bytes(t.inner_tx_code);
    assert(s.skip(i1 + 1 + d) =~= enc_opt_ts(t.timestamp) + r3);
    lemma_sdec_opt_ts_enc(t.timestamp, r3);
    let e = enc_opt_ts(t.timestamp).len() as int;
    assert(sdec_opt_ts(s.skip(i1 + 1 + d)) == Some((t.timestamp, e)));
    let r4 = enc_opt_bytes(t.inner_tx_code);
    assert(s.skip(i1 + 1 + d + e) =~= enc_opt_bytes(t.inner_tx) + r4);
    lemma_sdec_opt_bytes_enc(t.inner_tx, r4);
    let f = enc_opt_bytes(t.inner_tx).len() as int;
    assert(sdec_opt_bytes(s.skip(i1 + 1 + d + e)) == Some((t.inner_tx, f)));
    assert(s.skip(i1 + 1 + d + e + f) =~= enc_opt_bytes(t.inner_tx_code) + Seq::<u8>::empty());
    lemma_sdec_opt_bytes_enc(t.inner_tx_code, Seq::<u8>::empty());
    let g = enc_opt_bytes(t.inner_tx_code).len() as int;
    assert(sdec_opt_bytes(s.skip(i1 + 1 + d + e + f)) == Some((t.inner_tx_code, g)));
    assert(i1 + 1 + d + e + f + g == s.len());
    assert(sdec_raw_tx(s) == Some(t));
}

/// The canonical encoding distinguishes distinct transactions.
pub proof fn lemma_raw_tx_enc_injective(a: RawTxView, b: RawTxView)
    requires
        wf_raw_tx(a),
        wf_raw_tx(b),
        enc_raw_tx(a) == enc_raw_tx(b),
    ensures
        a == b,
{
    lemma_raw_tx_round_trip(a);
    lemma_raw_tx_round_trip(b);
}

impl RawTx {
    /// Serializes the wire form canonically.
    pub fn encode(&self) -> (r: Vec<u8>)
        ensures
            r@ == enc_raw_tx(self@),
    {
        let mut out: Vec<u8> = Vec::new();
        write_bytes(&mut out, &self.code);
        out.push(if self.is_code_hash {
            1u8
        } else {
            0u8
        });
        write_opt_bytes(&mut out, &self.data);
        match &self.timestamp {
            None => out.push(0u8),
            Some(t) => {
                out.push(1u8);
                write_u64(&mut out, t.0);
                write_u64(&mut out, t.1);
            },
        }
        proof {
            assert(out@ =~= enc_bytes(self.code@) + seq![bool_byte(self.is_code_hash)]
                + enc_opt_bytes(view_opt(self.data)) + enc_opt_ts(self@.timestamp));
        }
        write_opt_bytes(&mut out, &self.inner_tx);
        write_opt_bytes(&mut out, &self.inner_tx_code);
        proof {
            assert(out@ =~= enc_raw_tx(self@));
        }
        out
    }

    /// Parses a whole buffer as a wire-form transaction.
    pub fn decode(buf: &Vec<u8>) -> (r: Option<RawTx>)
        ensures
            r matches Some(t) ==> sdec_raw_tx(buf@) == Some(t@),
            r is None ==> sdec_raw_tx(buf@) is None,
    {
        let mut pos: usize = 0;
        let code = match read_bytes(buf, &mut pos) {
            Some(c) => c,
            None => {
                proof {
                reveal(sdec_raw_tx);
                    assert(buf@.skip(0) =~= buf@);
                }
                return None;
            },
        };
        proof {
                reveal(sdec_raw_tx);
            assert(buf@.skip(0) =~= buf@);
            assert(buf@.skip(0).subrange(0, pos as int) == enc_bytes(code@));
            assert(buf@ =~= enc_bytes(code@) + buf@.skip(pos as int));
            assert(code@.len() < pow256(8)) by {
                lemma_pow256_8();
            };
            lemma_sdec_bytes_enc(code@, buf@.skip(pos as int));
            assert(sdec_bytes(buf@) == Some((code@, pos as int)));
        }
        let ghost i1 = pos as int;
        let flag = match read_u8(buf, &mut pos) {
            Some(f) => f,
            None => {
                proof {
                reveal(sdec_raw_tx);
                    assert(buf@.skip(i1).len() == 0);
                }
                return None;
            },
        };
        proof {
                reveal(sdec_raw_tx);
            assert(buf@.skip(i1)[0] == flag);
            assert(sdec_u8(buf@.skip(i1)) == Some((flag, 1int)));
        }
        if flag > 1 {
            proof {
                reveal(sdec_raw_tx);
            }
            return None;
        }
        proof {
                reveal(sdec_raw_tx);
            assert(buf@.skip(i1 + 1) =~= buf@.skip(i1).skip(1));
        }
        let data = match read_opt_bytes(buf, &mut pos) {
            Some(d) => d,
            None => {
                proof {
                    reveal(sdec_raw_tx);
                }
                return None;
            },
        };
        let ghost dlen = pos - i1 - 1;
        let ghost i2 = pos as int;
        let timestamp = match read_opt_ts(buf, &mut pos) {
            Some(t) => t,
            None => {
                proof {
                    reveal(sdec_raw_tx);
                }
                return None;
            },
        };
        let ghost elen = pos - i2;
        let ghost i3 = pos as int;
        let inner_tx = match read_opt_bytes(buf, &mut pos) {
            Some(v) => v,
            None => {
                proof {
                    reveal(sdec_raw_tx);
                }
                return None;
            },
        };
        let ghost flen = pos - i3;
        let ghost i4 = pos as int;
        let inner_tx_code = match read_opt_bytes(buf, &mut pos) {
            Some(v) => v,
            None => {
                proof {
                    reveal(sdec_raw_tx);
                }
                return None;
            },
        };
        let ghost glen = pos - i4;
        if pos != buf.len() {
            proof {
                reveal(sdec_raw_tx);
            }
            return None;
        }
        let t = RawTx { code, is_code_hash: flag == 1, data, timestamp, inner_tx, inner_tx_code };
        proof {
                reveal(sdec_raw_tx);
            assert(sdec_bytes(buf@) == Some((code@, i1)));
            assert(sdec_u8(buf@.skip(i1)) == Some((flag, 1int)));
            assert(sdec_opt_bytes(buf@.skip(i1 + 1)) == Some((view_opt(data), dlen)));
            assert(sdec_opt_ts(buf@.skip(i1 + 1 + dlen)) == Some((timestamp, elen)));
            assert(sdec_opt_bytes(buf@.skip(i1 + 1 + dlen + elen)) == Some(
                (view_opt(inner_tx), flen),
            ));
            assert(sdec_opt_bytes(buf@.skip(i1 + 1 + dlen + elen + flen)) == Some(
                (view_opt(inner_tx_code), glen),
            ));
            assert(i1 + 1 + dlen + elen + flen + glen == buf@.len());
            assert(sdec_raw_tx(buf@) == Some(t@));
        }
        Some(t)
    }
}

/// Reads an optional timestamp.
fn read_opt_ts(buf: &Vec<u8>, pos: &mut usize) -> (r: Option<Option<(u64, u64)>>)
    requires
        *old(pos) <= buf@.len(),
    ensures
        r matches Some(o) ==> {
            &&& *old(pos) <= *final(pos) <= buf@.len()
            &&& sdec_opt_ts(buf@.skip(*old(pos) as int)) == Some((o, *final(pos) - *old(pos)))
        },
        r is None ==> sdec_opt_ts(buf@.skip(*old(pos) as int)) is None,
{
    let ghost s = buf@.skip(*old(pos) as int);
    let start: usize = *pos;
    match read_u8(buf, pos) {
        None => {
            proof {
                assert(s.len() == 0);
            }
            None
        },
        Some(tag) => {
            proof {
                assert(s[0] == tag);
            }
            if tag == 0 {
                Some(None)
            } else if tag == 1 {
                proof {
                    assert(s.skip(1) =~= buf@.skip(start + 1));
                }
                let secs = match read_u64(buf, pos) {
                    None => {
                        proof {
                            assert(sdec_u64(s.skip(1)) is None);
                        }
                        return None;
                    },
                    Some(v) => v,
                };
                proof {
                    assert(s.skip(1).take(8) =~= buf@.subrange(start + 1, start + 9));
                    assert(sdec_u64(s.skip(1)) == Some((secs, 8int)));
                    assert(s.skip(9) =~= buf@.skip(start + 9));
                }
                let nanos = match read_u64(buf, pos) {
                    None => {
                        proof {
                            assert(sdec_u64(s.skip(9)) is None);
                        }
                        return None;
                    },
                    Some(v) => v,
                };
                proof {
                    assert(s.skip(9).take(8) =~= buf@.subrange(start + 9, start + 17));
                    assert(sdec_u64(s.skip(9)) == Some((nanos, 8int)));
                    assert(sdec_opt_ts(s) == Some((Some((secs, nanos)), 17int)));
                }
                Some(Some((secs, nanos)))
            } else {
                None
            }
        },
    }
}



/// The mathematical value of a transaction.
pub struct TxV {
    pub code: TxCodeV,
    pub data: Option<Seq<u8>>,
    pub timestamp: (u64, u64),
    pub inner_tx: Option<Seq<u8>>,
    pub inner_tx_code: Option<Seq<u8>>,
}

/// A transaction: code, optional data, a timestamp, and two optional
/// encrypted inner blobs whose cleartext is committed to by hash.
#[derive(Clone, Debug)]
pub struct Tx {
    pub code: TxCode,
    pub data: Option<Vec<u8>>,
    pub timestamp: DateTimeUtc,
    pub inner_tx: Option<Vec<u8>>,
    pub inner_tx_code: Option<Vec<u8>>,
}

impl View for Tx {
    type V = TxV;

    open spec fn view(&self) -> TxV {
        TxV {
            code: self.code@,
            data: view_opt(self.data),
            timestamp: ts_view(self.timestamp),
            inner_tx: view_opt(self.inner_tx),
            inner_tx_code: view_opt(self.inner_tx_code),
        }
    }
}

/// The wire form of a transaction value.
pub open spec fn wire_of_tx(t: TxV) -> RawTxView {
    RawTxView {
        code: match t.code {
            TxCodeV::Hash(h) => h,
            TxCodeV::Literal(l) => l,
        },
        is_code_hash: t.code is Hash,
        data: t.data,
        timestamp: Some(t.timestamp),
        inner_tx: t.inner_tx,
        inner_tx_code: t.inner_tx_code,
    }
}

/// The transaction value a wire form denotes, when it has a timestamp.
pub open spec fn tx_of_wire(v: RawTxView) -> TxV
    recommends
        v.timestamp is Some,
{
    TxV {
        code: if v.is_code_hash {
            TxCodeV::Hash(v.code)
        } else {
            TxCodeV::Literal(v.code)
        },
        data: v.data,
        timestamp: v.timestamp->Some_0,
        inner_tx: v.inner_tx,
        inner_tx_code: v.inner_tx_code,
    }
}

/// The canonical encoding of a transaction.
pub open spec fn enc_tx(t: TxV) -> Seq<u8> {
    enc_raw_tx(wire_of_tx(t))
}

/// Whether a transaction value fits on the wire with a valid timestamp.
pub open spec fn wf_tx(t: TxV) -> bool {
    wf_raw_tx(wire_of_tx(t)) && t.timestamp.1 < 1_000_000_000
}

/// The wire form stripped for identification: the code replaced by its
/// hash, the inner blobs left out.
pub open spec fn reduced_wire(t: TxV) -> RawTxView {
    RawTxView {
        code: code_hash_of(t.code),
        is_code_hash: true,
        data: t.data,
        timestamp: Some(t.timestamp),
        inner_tx: None,
        inner_tx_code: None,
    }
}

/// The partial hash: the identity a signature covers and the queue commits
/// to. It excludes the inner blobs, so the cleartext revealed next block
/// can be matched without changing the wrapper's identity.
pub open spec fn partial_hash_of(t: TxV) -> Seq<u8> {
    sha256_of(enc_raw_tx(reduced_wire(t)))
}

/// Signed data: the payload and a signature over the enclosing
/// transaction's partial hash.
#[derive(Clone, Debug)]
pub struct SignedTxData {
    /// The original transaction data bytes, if any.
    pub data: Option<Vec<u8>>,
    /// The signature over the transaction's partial hash.
    pub sig: Vec<u8>,
}

/// The canonical encoding of signed data.
pub open spec fn enc_signed(data: Option<Seq<u8>>, sig: Seq<u8>) -> Seq<u8> {
    enc_opt_bytes(data) + enc_bytes(sig)
}

/// Spec reader for a whole signed-data buffer.
pub open spec fn sdec_signed(s: Seq<u8>) -> Option<(Option<Seq<u8>>, Seq<u8>)> {
    if sdec_opt_bytes(s) is None {
        None
    } else {
        let (data, d) = sdec_opt_bytes(s)->Some_0;
        if sdec_bytes(s.skip(d)) is None {
            None
        } else {
            let (sig, g) = sdec_bytes(s.skip(d))->Some_0;
            if d + g == s.len() {
                Some((data, sig))
            } else {
                None
            }
        }
    }
}

/// Decoding encoded signed data yields the original.
pub proof fn lemma_signed_round_trip(data: Option<Seq<u8>>, sig: Seq<u8>)
    requires
        data matches Some(b) ==> b.len() < pow256(8),
        sig.len() < pow256(8),
    ensures
        sdec_signed(enc_signed(data, sig)) == Some((data, sig)),
{
    let s = enc_signed(data, sig);
    let r1 = enc_bytes(sig);
    assert(s =~= enc_opt_bytes(data) + r1);
    lemma_sdec_opt_bytes_enc(data, r1);
    let d = enc_opt_bytes(data).len() as int;
    assert(s.skip(d) =~= enc_bytes(sig) + Seq::<u8>::empty());
    lemma_sdec_bytes_enc(sig, Seq::<u8>::empty());
    crate::bytes::lemma_enc_le_len(sig.len(), 8);
    assert(d + (8 + sig.len()) == s.len());
}

impl SignedTxData {
    /// Serializes the signed data canonically.
    pub fn encode(&self) -> (r: Vec<u8>)
        ensures
            r@ == enc_signed(view_opt(self.data), self.sig@),
    {
        let mut out: Vec<u8> = Vec::new();
        write_opt_bytes(&mut out, &self.data);
        write_bytes(&mut out, &self.sig);
        proof {
            assert(out@ =~= enc_signed(view_opt(self.data), self.sig@));
        }
        out
    }

    /// Parses a whole buffer as signed data.
    pub fn decode(buf: &Vec<u8>) -> (r: Option<SignedTxData>)
        ensures
            r matches Some(sd) ==> sdec_signed(buf@) == Some((view_opt(sd.data), sd.sig@)),
            r is None ==> sdec_signed(buf@) is None,
    {
        let mut pos: usize = 0;
        let data = match read_opt_bytes(buf, &mut pos) {
            Some(d) => d,
            None => {
                proof {
                    assert(buf@.skip(0) =~= buf@);
                }
                return None;
            },
        };
        proof {
            assert(buf@.skip(0) =~= buf@);
        }
        let ghost d = pos as int;
        let sig = match read_bytes(buf, &mut pos) {
            Some(v) => v,
            None => {
                return None;
            },
        };
        proof {
            assert(buf@.subrange(d, pos as int) == enc_bytes(sig@));
            assert(buf@.skip(d) =~= enc_bytes(sig@) + buf@.skip(pos as int));
            assert(sig@.len() < pow256(8)) by {
                lemma_pow256_8();
            };
            lemma_sdec_bytes_enc(sig@, buf@.skip(pos as int));
        }
        if pos != buf.len() {
            return None;
        }
        Some(SignedTxData { data, sig })
    }
}

/// Whether two optional byte vectors hold the same value.
pub fn opt_bytes_eq(a: &Option<Vec<u8>>, b: &Option<Vec<u8>>) -> (r: bool)
    ensures
        r <==> view_opt(*a) == view_opt(*b),
{
    match (a, b) {
        (None, None) => true,
        (Some(x), Some(y)) => bytes_eq(x, y),
        _ => false,
    }
}

/// Copies a byte vector.
pub fn copy_bytes(v: &Vec<u8>) -> (r: Vec<u8>)
    ensures
        r@ == v@,
{
    let mut out: Vec<u8> = Vec::new();
    crate::bytes::push_all(&mut out, v);
    out
}

/// Copies an optional byte vector.
pub fn copy_opt_bytes(v: &Option<Vec<u8>>) -> (r: Option<Vec<u8>>)
    ensures
        view_opt(r) == view_opt(*v),
{
    match v {
        None => None,
        Some(b) => Some(copy_bytes(b)),
    }
}

/// Copies transaction code.
pub fn copy_tx_code(c: &TxCode) -> (r: TxCode)
    ensures
        r@ == c@,
{
    match c {
        TxCode::Hash(h) => TxCode::Hash(copy_bytes(h)),
        TxCode::Literal(l) => TxCode::Literal(copy_bytes(l)),
    }
}

/// Public key of the threshold scheme that seals inner payloads. The
/// scheme is a placeholder pending distributed key generation: sealing
/// stores the payload bytes, and opening checks them against the
/// wrapper's hash commitment.
#[derive(Clone, Debug)]
pub struct EncryptionKey(pub Vec<u8>);

impl Tx {
    /// A fresh transaction with literal code, stamped with the current time.
    pub fn new(code: Vec<u8>, data: Option<Vec<u8>>) -> (r: Tx)
        ensures
            r@.code == TxCodeV::Literal(code@),
            r@.data == view_opt(data),
            r@.inner_tx is None,
            r@.inner_tx_code is None,
            r.timestamp.wf(),
    {
        Tx {
            code: TxCode::Literal(code),
            data,
            timestamp: DateTimeUtc::now(),
            inner_tx: None,
            inner_tx_code: None,
        }
    }

    /// The wire form of this transaction.
    fn to_raw(&self) -> (r: RawTx)
        ensures
            r@ == wire_of_tx(self@),
    {
        let code = match &self.code {
            TxCode::Hash(h) => copy_bytes(h),
            TxCode::Literal(l) => copy_bytes(l),
        };
        let is_code_hash = self.code.is_hash();
        RawTx {
            code,
            is_code_hash,
            data: copy_opt_bytes(&self.data),
            timestamp: Some((self.timestamp.secs, self.timestamp.nanos as u64)),
            inner_tx: copy_opt_bytes(&self.inner_tx),
            inner_tx_code: copy_opt_bytes(&self.inner_tx_code),
        }
    }

    /// The canonical encoding of this transaction.
    pub fn to_bytes(&self) -> (r: Vec<u8>)
        ensures
            r@ == enc_tx(self@),
    {
        self.to_raw().encode()
    }

    /// Parses a whole buffer as a transaction: the buffer must be a
    /// canonical encoding carrying a timestamp with nanoseconds in range.
    pub fn try_from_bytes(buf: &Vec<u8>) -> (r: Result<Tx, Error>)
        ensures
            match sdec_raw_tx(buf@) {
                None => r == Err::<Tx, Error>(Error::TxDecodingError),
                Some(v) => {
                    if v.timestamp is None {
                        r == Err::<Tx, Error>(Error::NoTimestampError)
                    } else if v.timestamp->Some_0.1 >= 1_000_000_000 {
                        r == Err::<Tx, Error>(Error::InvalidTimestamp)
                    } else {
                        r matches Ok(tx) && tx@ == tx_of_wire(v)
                    }
                },
            },
    {
        let raw = match RawTx::decode(buf) {
            Some(raw) => raw,
            None => {
                return Err(Error::TxDecodingError);
            },
        };
        let (secs, nanos) = match raw.timestamp {
            Some(t) => t,
            None => {
                return Err(Error::NoTimestampError);
            },
        };
        if nanos >= 1_000_000_000 {
            return Err(Error::InvalidTimestamp);
        }
        let code = if raw.is_code_hash {
            TxCode::Hash(raw.code)
        } else {
            TxCode::Literal(raw.code)
        };
        let tx = Tx {
            code,
            data: raw.data,
            timestamp: DateTimeUtc { secs, nanos: nanos as u32 },
            inner_tx: raw.inner_tx,
            inner_tx_code: raw.inner_tx_code,
        };
        Ok(tx)
    }

    /// The partial hash: this transaction's identity for signing and for
    /// the decrypted-queue commitment.
    pub fn partial_hash(&self) -> (r: Vec<u8>)
        ensures
            r@ == partial_hash_of(self@),
            r@.len() == 32,
    {
        let reduced = RawTx {
            code: self.code.code_hash(),
            is_code_hash: true,
            data: copy_opt_bytes(&self.data),
            timestamp: Some((self.timestamp.secs, self.timestamp.nanos as u64)),
            inner_tx: None,
            inner_tx_code: None,
        };
        let encoded = reduced.encode();
        sha256(&encoded)
    }

    /// The hash of this transaction's code.
    pub fn code_hash(&self) -> (r: Vec<u8>)
        ensures
            r@ == code_hash_of(self@.code),
    {
        self.code.code_hash()
    }

    /// The transaction after signing: the data field is replaced by signed
    /// data carrying the old data and a signature over the partial hash.
    pub open spec fn signed_with(t: TxV, sk: Seq<u8>) -> TxV {
        TxV {
            code: t.code,
            data: Some(enc_signed(t.data, ed_sign(sk, partial_hash_of(t)))),
            timestamp: t.timestamp,
            inner_tx: t.inner_tx,
            inner_tx_code: t.inner_tx_code,
        }
    }

    /// Signs the transaction's partial hash with a 32-byte secret key.
    pub fn sign(self, sk: &Vec<u8>) -> (r: Tx)
        requires
            sk@.len() == 32,
        ensures
            r@ == Tx::signed_with(self@, sk@),
    {
        let hash = self.partial_hash();
        let sig = ed_sign_bytes(sk, &hash);
        let signed = SignedTxData { data: self.data, sig };
        let data = signed.encode();
        Tx {
            code: self.code,
            data: Some(data),
            timestamp: self.timestamp,
            inner_tx: self.inner_tx,
            inner_tx_code: self.inner_tx_code,
        }
    }

    /// Whether the embedded signed data carries a payload whose partial
    /// hash the given signature signs under the given key.
    pub open spec fn sig_ok(t: TxV, pk: Seq<u8>, sig: Seq<u8>) -> bool {
        &&& t.data is Some
        &&& sdec_signed(t.data->Some_0) is Some
        &&& ed_verify(
            pk,
            partial_hash_of(
                TxV {
                    code: t.code,
                    data: sdec_signed(t.data->Some_0)->Some_0.0,
                    timestamp: t.timestamp,
                    inner_tx: t.inner_tx,
                    inner_tx_code: t.inner_tx_code,
                },
            ),
            sig,
        )
    }

    /// Verifies that the given signature signs this transaction's partial
    /// hash (with the signed payload in place of the data field).
    pub fn verify_sig(&self, pk: &Vec<u8>, sig: &Vec<u8>) -> (r: Result<(), VerifySigError>)
        ensures
            match r {
                Ok(()) => Tx::sig_ok(self@, pk@, sig@),
                Err(e) => {
                    if self@.data is None {
                        e == VerifySigError::MissingData
                    } else if sdec_signed(self@.data->Some_0) is None {
                        e == VerifySigError::DataDecodeError
                    } else {
                        e == VerifySigError::InvalidSignature && !Tx::sig_ok(self@, pk@, sig@)
                    }
                },
            },
    {
        let tx_data = match &self.data {
            Some(d) => d,
            None => {
                return Err(VerifySigError::MissingData);
            },
        };
        let signed = match SignedTxData::decode(tx_data) {
            Some(sd) => sd,
            None => {
                return Err(VerifySigError::DataDecodeError);
            },
        };
        let stripped = Tx {
            code: copy_tx_code(&self.code),
            data: signed.data,
            timestamp: self.timestamp,
            inner_tx: copy_opt_bytes(&self.inner_tx),
            inner_tx_code: copy_opt_bytes(&self.inner_tx_code),
        };
        let hash = stripped.partial_hash();
        if ed_verify_bytes(pk, &hash, sig) {
            Ok(())
        } else {
            Err(VerifySigError::InvalidSignature)
        }
    }

    /// Attaches a sealed copy of the given transaction as the inner
    /// payload.
    pub fn attach_inner_tx(self, tx: &Tx, _key: &EncryptionKey) -> (r: Tx)
        ensures
            r@ == (TxV { inner_tx: Some(enc_tx(tx@)), ..self@ }),
    {
        let inner = tx.to_bytes();
        Tx { inner_tx: Some(inner), ..self }
    }

    /// Attaches sealed transaction code as the inner code payload.
    pub fn attach_inner_tx_code(self, code: &Vec<u8>, _key: &EncryptionKey) -> (r: Tx)
        ensures
            r@ == (TxV { inner_tx_code: Some(code@), ..self@ }),
    {
        let inner = copy_bytes(code);
        Tx { inner_tx_code: Some(inner), ..self }
    }

    /// Opens a sealed payload, succeeding only when it matches this
    /// transaction's code-hash commitment.
    pub fn decrypt_code(&self, inner: &Vec<u8>) -> (r: Option<Vec<u8>>)
        ensures
            r is Some <==> sha256_of(inner@) == code_hash_of(self@.code),
            r matches Some(b) ==> b@ == inner@,
    {
        let digest = sha256(inner);
        let committed = self.code.code_hash();
        if bytes_eq(&digest, &committed) {
            Some(copy_bytes(inner))
        } else {
            None
        }
    }
}

impl PartialEq for Tx {
    fn eq(&self, other: &Tx) -> (r: bool) {
        let code_eq = match (&self.code, &other.code) {
            (TxCode::Hash(a), TxCode::Hash(b)) => bytes_eq(a, b),
            (TxCode::Literal(a), TxCode::Literal(b)) => bytes_eq(a, b),
            _ => false,
        };
        code_eq && opt_bytes_eq(&self.data, &other.data) && self.timestamp.secs
            == other.timestamp.secs && self.timestamp.nanos == other.timestamp.nanos
            && opt_bytes_eq(&self.inner_tx, &other.inner_tx) && opt_bytes_eq(
            &self.inner_tx_code,
            &other.inner_tx_code,
        )
    }
}

impl vstd::std_specs::cmp::PartialEqSpecImpl for Tx {
    open spec fn obeys_eq_spec() -> bool {
        true
    }

    open spec fn eq_spec(&self, other: &Tx) -> bool {
        self@ == other@
    }
}

impl Eq for Tx {

}

} // verus!
