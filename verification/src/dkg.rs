//! Gossip messages of the distributed-key-generation session.
//!
//! A gossip message wraps one optional DKG payload; the canonical encoding
//! is a presence tag followed by the payload's UTF-8 bytes, and decoding an
//! encoding yields the original message.

use vstd::prelude::*;
use vstd::string::StrSliceExecFns;
use vstd::utf8::{encode_utf8, decode_utf8, valid_utf8, encode_utf8_valid_utf8,
    encode_utf8_decode_utf8};
use crate::bytes::{enc_bytes, sdec_bytes, pow256, lemma_pow256_8, lemma_sdec_bytes_enc,
    write_bytes, read_u8, read_bytes};
use crate::tx::Error;

verus! {

/// A DKG session payload.
#[derive(Clone, Debug)]
pub struct Dkg {
    pub data: String,
}

impl Dkg {
    /// Wraps a payload.
    pub fn new(data: String) -> (r: Dkg)
        ensures
            r.data@ == data@,
    {
        Dkg { data }
    }
}

impl PartialEq for Dkg {
    fn eq(&self, other: &Dkg) -> (r: bool) {
        self.data == other.data
    }
}

impl vstd::std_specs::cmp::PartialEqSpecImpl for Dkg {
    open spec fn obeys_eq_spec() -> bool {
        true
    }

    open spec fn eq_spec(&self, other: &Dkg) -> bool {
        self.data@ == other.data@
    }
}

impl Eq for Dkg {

}

/// A gossip message carrying one DKG payload.
#[derive(Clone, Debug)]
pub struct DkgGossipMessage {
    pub dkg: Dkg,
}

impl PartialEq for DkgGossipMessage {
    fn eq(&self, other: &DkgGossipMessage) -> (r: bool) {
        self.dkg.data == other.dkg.data
    }
}

impl vstd::std_specs::cmp::PartialEqSpecImpl for DkgGossipMessage {
    open spec fn obeys_eq_spec() -> bool {
        true
    }

    open spec fn eq_spec(&self, other: &DkgGossipMessage) -> bool {
        self.dkg.data@ == other.dkg.data@
    }
}

impl Eq for DkgGossipMessage {

}

/// The canonical encoding of a gossip message that carries a payload.
pub open spec fn enc_dkg_msg(data: Seq<char>) -> Seq<u8> {
    seq![1u8] + enc_bytes(encode_utf8(data))
}

/// Spec reader for a whole gossip-message buffer. The outer `None` is a
/// malformed buffer; `Some(None)` is a message without a payload;
/// `Some(Some(b))` carries the payload's UTF-8 bytes.
pub open spec fn sdec_dkg_msg(s: Seq<u8>) -> Option<Option<Seq<u8>>> {
    if s.len() < 1 {
        None
    } else if s[0] == 0 {
        if s.len() == 1 {
            Some(None)
        } else {
            None
        }
    } else if s[0] == 1 {
        if sdec_bytes(s.skip(1)) is None {
            None
        } else {
            let (b, j) = sdec_bytes(s.skip(1))->Some_0;
            if 1 + j == s.len() {
                Some(Some(b))
            } else {
                None
            }
        }
    } else {
        None
    }
}

/// Decoding an encoded gossip message yields the original payload.
pub proof fn lemma_dkg_round_trip(data: Seq<char>)
    requires
        encode_utf8(data).len() < pow256(8),
    ensures
        sdec_dkg_msg(enc_dkg_msg(data)) == Some(Some(encode_utf8(data))),
        valid_utf8(encode_utf8(data)),
        decode_utf8(encode_utf8(data)) == data,
{
    let b = encode_utf8(data);
    let s = enc_dkg_msg(data);
    assert(s[0] == 1u8);
    assert(s.skip(1) =~= enc_bytes(b) + Seq::<u8>::empty());
    lemma_sdec_bytes_enc(b, Seq::<u8>::empty());
    crate::bytes::lemma_enc_le_len(b.len(), 8);
    encode_utf8_valid_utf8(data);
    encode_utf8_decode_utf8(data);
}

impl DkgGossipMessage {
    /// Wraps a payload.
    pub fn new(dkg: Dkg) -> (r: DkgGossipMessage)
        ensures
            r.dkg.data@ == dkg.data@,
    {
        DkgGossipMessage { dkg }
    }

    /// The canonical encoding of this message.
    pub fn to_bytes(&self) -> (r: Vec<u8>)
        ensures
            r@ == enc_dkg_msg(self.dkg.data@),
    {
        let mut out: Vec<u8> = Vec::new();
        out.push(1u8);
        let data_bytes = self.dkg.data.as_str().as_bytes_vec();
        write_bytes(&mut out, &data_bytes);
        proof {
            assert(out@ =~= enc_dkg_msg(self.dkg.data@));
        }
        out
    }

    /// Parses a whole buffer as a gossip message; a message without a
    /// payload or with bytes that do not spell a string is refused.
    pub fn try_from_bytes(buf: &Vec<u8>) -> (r: Result<DkgGossipMessage, Error>)
        ensures
            match sdec_dkg_msg(buf@) {
                None => r == Err::<DkgGossipMessage, Error>(Error::DkgDecodingError),
                Some(None) => r == Err::<DkgGossipMessage, Error>(Error::NoDkgError),
                Some(Some(b)) => {
                    if valid_utf8(b) {
                        r matches Ok(m) && m.dkg.data@ == decode_utf8(b)
                    } else {
                        r == Err::<DkgGossipMessage, Error>(Error::DkgDecodingError)
                    }
                },
            },
    {
        let mut pos: usize = 0;
        let tag = match read_u8(buf, &mut pos) {
            Some(t) => t,
            None => {
                return Err(Error::DkgDecodingError);
            },
        };
        if tag == 0 {
            if buf.len() == 1 {
                return Err(Error::NoDkgError);
            } else {
                return Err(Error::DkgDecodingError);
            }
        }
        if tag != 1 {
            return Err(Error::DkgDecodingError);
        }
        proof {
            assert(buf@.skip(1) =~= buf@.skip(pos as int));
        }
        let data_bytes = match read_bytes(buf, &mut pos) {
            Some(b) => b,
            None => {
                return Err(Error::DkgDecodingError);
            },
        };
        proof {
            assert(buf@.subrange(1, pos as int) == enc_bytes(data_bytes@));
            assert(buf@.skip(1) =~= enc_bytes(data_bytes@) + buf@.skip(pos as int));
            assert(data_bytes@.len() < pow256(8)) by {
                lemma_pow256_8();
            };
            lemma_sdec_bytes_enc(data_bytes@, buf@.skip(pos as int));
        }
        if pos != buf.len() {
            return Err(Error::DkgDecodingError);
        }
        let ghost b = data_bytes@;
        match crate::crypto::string_from_utf8(data_bytes) {
            Some(data) => Ok(DkgGossipMessage { dkg: Dkg { data } }),
            None => Err(Error::DkgDecodingError),
        }
    }
}

} // verus!
