//! Token transfers and the event a delivered transfer emits.
//!
//! A delivered decrypted transaction whose signed payload is a token
//! transfer is annotated with one `Transfer` event carrying the source,
//! target, token and amount; anything else emits nothing.

use vstd::prelude::*;
use vstd::string::StringExecFns;
use crate::address::{Address, AddressV, enc_address, sdec_address};
use crate::bytes::{enc_le, enc_bytes, sdec_u64, sdec_bytes, pow256, lemma_pow256_8,
    lemma_sdec_bytes_enc, lemma_enc_le_len, write_u64, write_bytes, read_u64, read_bytes};
use crate::governance::{Event, EventV};
use crate::strutil::{u64_to_string, spec_u64_chars, spec_hex_chars, bytes_to_hex_upper};
use crate::tx::{Tx, TxV, sdec_signed};
use crate::transaction::{process_tx, process_tx_spec, TxTypeV, DecryptedTxV};

verus! {

/// A transparent token transfer.
#[derive(Clone, Debug)]
pub struct Transfer {
    /// The paying account.
    pub source: Address,
    /// The receiving account.
    pub target: Address,
    /// The token moved.
    pub token: Address,
    /// The amount moved.
    pub amount: u64,
}

/// The mathematical value of a transfer.
pub struct TokenTransferV {
    pub source: AddressV,
    pub target: AddressV,
    pub token: AddressV,
    pub amount: u64,
}

impl View for Transfer {
    type V = TokenTransferV;

    open spec fn view(&self) -> TokenTransferV {
        TokenTransferV {
            source: self.source@,
            target: self.target@,
            token: self.token@,
            amount: self.amount,
        }
    }
}

/// The canonical encoding of a transfer, as a whole buffer.
pub open spec fn enc_token_transfer(t: TokenTransferV) -> Seq<u8> {
    enc_bytes(enc_address(t.source)) + enc_bytes(enc_address(t.target)) + enc_bytes(
        enc_address(t.token),
    ) + enc_le(t.amount as nat, 8)
}

/// Spec reader for a whole transfer buffer.
pub open spec fn sdec_token_transfer(s: Seq<u8>) -> Option<TokenTransferV> {
    if sdec_bytes(s) is None {
        None
    } else {
        let (sb, i) = sdec_bytes(s)->Some_0;
        if sdec_bytes(s.skip(i)) is None {
            None
        } else {
            let (tb, j) = sdec_bytes(s.skip(i))->Some_0;
            if sdec_bytes(s.skip(i + j)) is None {
                None
            } else {
                let (kb, k) = sdec_bytes(s.skip(i + j))->Some_0;
                if sdec_u64(s.skip(i + j + k)) is None {
                    None
                } else {
                    let (amount, _m) = sdec_u64(s.skip(i + j + k))->Some_0;
                    if i + j + k + 8 == s.len() && sdec_address(sb) is Some && sdec_address(
                        tb,
                    ) is Some && sdec_address(kb) is Some {
                        Some(
                            TokenTransferV {
                                source: sdec_address(sb)->Some_0,
                                target: sdec_address(tb)->Some_0,
                                token: sdec_address(kb)->Some_0,
                                amount,
                            },
                        )
                    } else {
                        None
                    }
                }
            }
        }
    }
}

impl Transfer {
    /// Serializes the transfer canonically.
    pub fn encode(&self) -> (r: Vec<u8>)
        ensures
            r@ == enc_token_transfer(self@),
    {
        let mut out: Vec<u8> = Vec::new();
        let sb = self.source.encode();
        write_bytes(&mut out, &sb);
        let tb = self.target.encode();
        write_bytes(&mut out, &tb);
        let kb = self.token.encode();
        write_bytes(&mut out, &kb);
        write_u64(&mut out, self.amount);
        proof {
            assert(out@ =~= enc_token_transfer(self@));
        }
        out
    }

    /// Parses a whole buffer as a transfer.
    pub fn decode(buf: &Vec<u8>) -> (r: Option<Transfer>)
        ensures
            r matches Some(t) ==> sdec_token_transfer(buf@) == Some(t@),
            r is None ==> sdec_token_transfer(buf@) is None,
    {
        let mut pos: usize = 0;
        proof {
            assert(buf@.skip(0) =~= buf@);
        }
        let sb = match read_bytes(buf, &mut pos) {
            Some(b) => b,
            None => {
                return None;
            },
        };
        proof {
            assert(buf@.subrange(0, pos as int) == enc_bytes(sb@));
            assert(buf@ =~= enc_bytes(sb@) + buf@.skip(pos as int));
            assert(sb@.len() < pow256(8)) by {
                lemma_pow256_8();
            };
            lemma_sdec_bytes_enc(sb@, buf@.skip(pos as int));
            lemma_enc_le_len(sb@.len(), 8);
        }
        let ghost i = pos as int;
        let tb = match read_bytes(buf, &mut pos) {
            Some(b) => b,
            None => {
                return None;
            },
        };
        proof {
            assert(buf@.subrange(i, pos as int) == enc_bytes(tb@));
            assert(buf@.skip(i) =~= enc_bytes(tb@) + buf@.skip(pos as int));
            assert(tb@.len() < pow256(8)) by {
                lemma_pow256_8();
            };
            lemma_sdec_bytes_enc(tb@, buf@.skip(pos as int));
            lemma_enc_le_len(tb@.len(), 8);
        }
        let ghost j = pos - i;
        let kb = match read_bytes(buf, &mut pos) {
            Some(b) => b,
            None => {
                return None;
            },
        };
        proof {
            assert(buf@.subrange(i + j, pos as int) == enc_bytes(kb@));
            assert(buf@.skip(i + j) =~= enc_bytes(kb@) + buf@.skip(pos as int));
            assert(kb@.len() < pow256(8)) by {
                lemma_pow256_8();
            };
            lemma_sdec_bytes_enc(kb@, buf@.skip(pos as int));
            lemma_enc_le_len(kb@.len(), 8);
        }
        let ghost k = pos - i - j;
        let amount = match read_u64(buf, &mut pos) {
            Some(v) => v,
            None => {
                return None;
            },
        };
        proof {
            assert(buf@.skip(i + j + k).take(8) =~= buf@.subrange(i + j + k, i + j + k + 8));
            assert(sdec_u64(buf@.skip(i + j + k)) == Some((amount, 8int)));
        }
        if pos != buf.len() {
            return None;
        }
        let source = match Address::decode(&sb) {
            Some(a) => a,
            None => {
                return None;
            },
        };
        let target = match Address::decode(&tb) {
            Some(a) => a,
            None => {
                return None;
            },
        };
        let token = match Address::decode(&kb) {
            Some(a) => a,
            None => {
                return None;
            },
        };
        Some(Transfer { source, target, token, amount })
    }
}

/// The one `Transfer` event a delivered transfer is annotated with: the
/// accounts and token rendered in hexadecimal of their canonical
/// encodings, the amount in decimal.
pub open spec fn spec_transfer_event(t: TokenTransferV) -> EventV {
    EventV {
        event_type: "Transfer"@,
        level: "Tx"@,
        attributes: seq![
            ("source"@, spec_hex_chars(enc_address(t.source))),
            ("target"@, spec_hex_chars(enc_address(t.target))),
            ("token"@, spec_hex_chars(enc_address(t.token))),
            ("amount"@, spec_u64_chars(t.amount as nat)),
        ],
    }
}

/// Builds the `Transfer` event of a delivered transfer.
pub fn transfer_event(t: &Transfer) -> (r: Event)
    ensures
        r@ == spec_transfer_event(t@),
{
    let mut attributes: Vec<(String, String)> = Vec::new();
    let sb = t.source.encode();
    attributes.push((String::from_str("source"), bytes_to_hex_upper(&sb)));
    let tb = t.target.encode();
    attributes.push((String::from_str("target"), bytes_to_hex_upper(&tb)));
    let kb = t.token.encode();
    attributes.push((String::from_str("token"), bytes_to_hex_upper(&kb)));
    attributes.push((String::from_str("amount"), u64_to_string(t.amount)));
    let r = Event {
        event_type: String::from_str("Transfer"),
        level: String::from_str("Tx"),
        attributes,
    };
    proof {
        assert(r@.attributes[0] == (r.attributes@[0].0@, r.attributes@[0].1@));
        assert(r@.attributes[1] == (r.attributes@[1].0@, r.attributes@[1].1@));
        assert(r@.attributes[2] == (r.attributes@[2].0@, r.attributes@[2].1@));
        assert(r@.attributes[3] == (r.attributes@[3].0@, r.attributes@[3].1@));
        assert(r@.attributes =~= spec_transfer_event(t@).attributes);
    }
    r
}

/// The transfer a delivered transaction carries, if any: the transaction
/// must classify as a revealed decrypted transaction whose signed payload
/// decodes as a transfer.
pub open spec fn spec_delivered_transfer(t: TxV) -> Option<TokenTransferV> {
    match process_tx_spec(t) {
        Ok(tt) => match tt {
            TxTypeV::Decrypted(DecryptedTxV::Decrypted(inner)) => match inner.data {
                None => None,
                Some(d) => match sdec_signed(d) {
                    None => None,
                    Some((payload, _sig)) => match payload {
                        None => None,
                        Some(p) => sdec_token_transfer(p),
                    },
                },
            },
            _ => None,
        },
        Err(_e) => None,
    }
}

/// Annotates a delivered transaction: one `Transfer` event when it carries
/// a revealed transfer, nothing otherwise.
pub fn deliver_tx_events(tx: &Tx) -> (r: Vec<Event>)
    ensures
        match spec_delivered_transfer(tx@) {
            Some(t) => r@.len() == 1 && r@[0]@ == spec_transfer_event(t),
            None => r@.len() == 0,
        },
{
    let inner = match process_tx(tx) {
        Ok(crate::transaction::TxType::Decrypted(crate::transaction::DecryptedTx::Decrypted(
            inner,
        ))) => inner,
        _ => {
            return Vec::new();
        },
    };
    let data = match &inner.data {
        Some(d) => d,
        None => {
            return Vec::new();
        },
    };
    let signed = match crate::tx::SignedTxData::decode(data) {
        Some(sd) => sd,
        None => {
            return Vec::new();
        },
    };
    let payload = match &signed.data {
        Some(p) => p,
        None => {
            return Vec::new();
        },
    };
    let transfer = match Transfer::decode(payload) {
        Some(t) => t,
        None => {
            return Vec::new();
        },
    };
    let mut out: Vec<Event> = Vec::new();
    let ev = transfer_event(&transfer);
    out.push(ev);
    out
}

} // verus!
