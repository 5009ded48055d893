//! Ledger addresses.
//!
//! An address is an established account (a hash), an implicit account (a
//! public-key hash) or one of the predefined internal accounts. Equality is
//! byte-equality of the canonical encoding, which is injective.

use vstd::prelude::*;
use crate::bytes::{enc_bytes, sdec_bytes, pow256, lemma_pow256_8, lemma_sdec_bytes_enc,
    write_bytes, read_u8, read_bytes, bytes_eq, lemma_enc_le_len};
use crate::tx::copy_bytes;

verus! {

/// A predefined internal account.
#[derive(Clone, Copy, Debug, PartialEq, Eq, Structural)]
pub enum InternalAddress {
    /// The governance account, holder of locked proposal funds.
    Governance,
    /// The slash fund, receiver of rejected proposals' funds.
    SlashFund,
    /// The Ethereum bridge pool, escrow of outbound transfers.
    BridgePool,
    /// The Ethereum bridge account itself.
    EthBridge,
    /// The proof-of-stake account.
    Pos,
    /// The native token account.
    Nam,
}

/// An account address.
#[derive(Clone, Debug)]
pub enum Address {
    /// An established account, identified by a hash.
    Established(Vec<u8>),
    /// An implicit account, identified by a public-key hash.
    Implicit(Vec<u8>),
    /// A predefined internal account.
    Internal(InternalAddress),
}

/// The mathematical value of an address.
pub enum AddressV {
    Established(Seq<u8>),
    Implicit(Seq<u8>),
    Internal(InternalAddress),
}

impl View for Address {
    type V = AddressV;

    open spec fn view(&self) -> AddressV {
        match self {
            Address::Established(h) => AddressV::Established(h@),
            Address::Implicit(h) => AddressV::Implicit(h@),
            Address::Internal(i) => AddressV::Internal(*i),
        }
    }
}

/// The tag byte of an internal account.
pub open spec fn internal_tag(i: InternalAddress) -> u8 {
    match i {
        InternalAddress::Governance => 0u8,
        InternalAddress::SlashFund => 1u8,
        InternalAddress::BridgePool => 2u8,
        InternalAddress::EthBridge => 3u8,
        InternalAddress::Pos => 4u8,
        InternalAddress::Nam => 5u8,
    }
}

/// The canonical encoding of an address, as a whole buffer.
pub open spec fn enc_address(a: AddressV) -> Seq<u8> {
    match a {
        AddressV::Established(h) => seq![0u8] + enc_bytes(h),
        AddressV::Implicit(h) => seq![1u8] + enc_bytes(h),
        AddressV::Internal(i) => seq![2u8, internal_tag(i)],
    }
}

/// Spec reader for a whole address buffer.
pub open spec fn sdec_address(s: Seq<u8>) -> Option<AddressV> {
    if s.len() < 1 {
        None
    } else if s[0] == 0 || s[0] == 1 {
        if sdec_bytes(s.skip(1)) is None {
            None
        } else {
            let (h, j) = sdec_bytes(s.skip(1))->Some_0;
            if 1 + j == s.len() {
                if s[0] == 0 {
                    Some(AddressV::Established(h))
                } else {
                    Some(AddressV::Implicit(h))
                }
            } else {
                None
            }
        }
    } else if s[0] == 2 && s.len() == 2 {
        sdec_internal(s[1])
    } else {
        None
    }
}

/// The internal account a tag byte denotes.
pub open spec fn sdec_internal(t: u8) -> Option<AddressV> {
    if t == 0 {
        Some(AddressV::Internal(InternalAddress::Governance))
    } else if t == 1 {
        Some(AddressV::Internal(InternalAddress::SlashFund))
    } else if t == 2 {
        Some(AddressV::Internal(InternalAddress::BridgePool))
    } else if t == 3 {
        Some(AddressV::Internal(InternalAddress::EthBridge))
    } else if t == 4 {
        Some(AddressV::Internal(InternalAddress::Pos))
    } else if t == 5 {
        Some(AddressV::Internal(InternalAddress::Nam))
    } else {
        None
    }
}

/// Whether an address is well formed: account hashes are short.
pub open spec fn wf_address(a: AddressV) -> bool {
    match a {
        AddressV::Established(h) => h.len() <= 64,
        AddressV::Implicit(h) => h.len() <= 64,
        AddressV::Internal(_i) => true,
    }
}

/// A well-formed address encodes into a bounded buffer.
pub proof fn lemma_address_enc_len(a: AddressV)
    requires
        wf_address(a),
    ensures
        enc_address(a).len() <= 73,
{
    match a {
        AddressV::Established(h) => {
            lemma_enc_le_len(h.len(), 8);
        },
        AddressV::Implicit(h) => {
            lemma_enc_le_len(h.len(), 8);
        },
        AddressV::Internal(_i) => {
        },
    }
}

/// Decoding an encoded address yields the original: address equality is
/// byte-equality of the canonical encoding.
pub proof fn lemma_address_round_trip(a: AddressV)
    requires
        wf_address(a),
    ensures
        sdec_address(enc_address(a)) == Some(a),
{
    let s = enc_address(a);
    match a {
        AddressV::Established(h) => {
            assert(s[0] == 0u8);
            assert(s.skip(1) =~= enc_bytes(h) + Seq::<u8>::empty());
            lemma_pow256_8();
            lemma_sdec_bytes_enc(h, Seq::<u8>::empty());
            lemma_enc_le_len(h.len(), 8);
        },
        AddressV::Implicit(h) => {
            assert(s[0] == 1u8);
            assert(s.skip(1) =~= enc_bytes(h) + Seq::<u8>::empty());
            lemma_pow256_8();
            lemma_sdec_bytes_enc(h, Seq::<u8>::empty());
            lemma_enc_le_len(h.len(), 8);
        },
        AddressV::Internal(_i) => {
            assert(s[0] == 2u8);
        },
    }
}

/// Copies an address.
pub fn copy_address(a: &Address) -> (r: Address)
    ensures
        r@ == a@,
{
    match a {
        Address::Established(h) => Address::Established(copy_bytes(h)),
        Address::Implicit(h) => Address::Implicit(copy_bytes(h)),
        Address::Internal(i) => Address::Internal(*i),
    }
}

impl Address {
    /// Serializes the address canonically.
    pub fn encode(&self) -> (r: Vec<u8>)
        ensures
            r@ == enc_address(self@),
    {
        let mut out: Vec<u8> = Vec::new();
        match self {
            Address::Established(h) => {
                out.push(0u8);
                write_bytes(&mut out, h);
            },
            Address::Implicit(h) => {
                out.push(1u8);
                write_bytes(&mut out, h);
            },
            Address::Internal(i) => {
                out.push(2u8);
                out.push(
                    match i {
                        InternalAddress::Governance => 0u8,
                        InternalAddress::SlashFund => 1u8,
                        InternalAddress::BridgePool => 2u8,
                        InternalAddress::EthBridge => 3u8,
                        InternalAddress::Pos => 4u8,
                        InternalAddress::Nam => 5u8,
                    },
                );
            },
        }
        proof {
            assert(out@ =~= enc_address(self@));
        }
        out
    }

    /// Parses a whole buffer as an address.
    pub fn decode(buf: &Vec<u8>) -> (r: Option<Address>)
        ensures
            r matches Some(a) ==> sdec_address(buf@) == Some(a@),
            r is None ==> sdec_address(buf@) is None,
    {
        let mut pos: usize = 0;
        let tag = match read_u8(buf, &mut pos) {
            Some(t) => t,
            None => {
                return None;
            },
        };
        if tag == 0 || tag == 1 {
            proof {
                assert(buf@.skip(1) =~= buf@.skip(pos as int));
            }
            let h = match read_bytes(buf, &mut pos) {
                Some(b) => b,
                None => {
                    return None;
                },
            };
            proof {
                assert(buf@.subrange(1, pos as int) == enc_bytes(h@));
                assert(buf@.skip(1) =~= enc_bytes(h@) + buf@.skip(pos as int));
                assert(h@.len() < pow256(8)) by {
                    lemma_pow256_8();
                };
                lemma_sdec_bytes_enc(h@, buf@.skip(pos as int));
            }
            if pos != buf.len() {
                return None;
            }
            if tag == 0 {
                Some(Address::Established(h))
            } else {
                Some(Address::Implicit(h))
            }
        } else if tag == 2 {
            let t = match read_u8(buf, &mut pos) {
                Some(t) => t,
                None => {
                    return None;
                },
            };
            if pos != buf.len() {
                return None;
            }
            if t == 0 {
                Some(Address::Internal(InternalAddress::Governance))
            } else if t == 1 {
                Some(Address::Internal(InternalAddress::SlashFund))
            } else if t == 2 {
                Some(Address::Internal(InternalAddress::BridgePool))
            } else if t == 3 {
                Some(Address::Internal(InternalAddress::EthBridge))
            } else if t == 4 {
                Some(Address::Internal(InternalAddress::Pos))
            } else if t == 5 {
                Some(Address::Internal(InternalAddress::Nam))
            } else {
                None
            }
        } else {
            None
        }
    }
}

impl PartialEq for Address {
    fn eq(&self, other: &Address) -> (r: bool) {
        match (self, other) {
            (Address::Established(a), Address::Established(b)) => bytes_eq(a, b),
            (Address::Implicit(a), Address::Implicit(b)) => bytes_eq(a, b),
            (Address::Internal(a), Address::Internal(b)) => a == b,
            _ => false,
        }
    }
}

impl vstd::std_specs::cmp::PartialEqSpecImpl for Address {
    open spec fn obeys_eq_spec() -> bool {
        true
    }

    open spec fn eq_spec(&self, other: &Address) -> bool {
        self@ == other@
    }
}

impl Eq for Address {

}

/// Whether two addresses are equal, as a plain function.
pub fn address_eq(a: &Address, b: &Address) -> (r: bool)
    ensures
        r <==> a@ == b@,
{
    match (a, b) {
        (Address::Established(x), Address::Established(y)) => bytes_eq(x, y),
        (Address::Implicit(x), Address::Implicit(y)) => bytes_eq(x, y),
        (Address::Internal(x), Address::Internal(y)) => x == y,
        _ => false,
    }
}


/// Well-formed addresses with equal encodings are equal.
pub proof fn lemma_enc_address_injective(a: AddressV, b: AddressV)
    requires
        wf_address(a),
        wf_address(b),
        enc_address(a) == enc_address(b),
    ensures
        a == b,
{
    lemma_address_round_trip(a);
    lemma_address_round_trip(b);
}

} // verus!
