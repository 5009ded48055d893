//! The Ethereum bridge pool: outbound transfers, their content-addressed
//! identities, nonce-guarded event application, and the relayer batch
//! recommender.

use vstd::prelude::*;
use vstd::assert_multisets_equal;
use crate::address::{Address, AddressV, enc_address, copy_address, InternalAddress};
use crate::bytes::{enc_le, enc_bytes, write_u64, write_bytes, bytes_eq};
use crate::crypto::{keccak256, keccak_of};
use crate::storage::{Store, spec_get};
use crate::governance::{spec_balance_key, balance_key, spec_read_amount, read_amount,
    write_amount};
use crate::strutil::{bytes_to_hex_upper, spec_hex_chars};
use crate::vote_ext::{EthereumEvent, EthereumEventV, TransferToNamada, TransferToNamadaV,
    event_nonce, event_kind};
use crate::tx::copy_bytes;

verus! {

/// The gas fee an outbound transfer escrows for its relayer.
#[derive(Clone, Debug)]
pub struct GasFee {
    /// The escrowed amount.
    pub amount: u64,
    /// The account that paid it.
    pub payer: Address,
}

/// An outbound transfer to the Ethereum chain.
#[derive(Clone, Debug)]
pub struct TransferToEthereum {
    /// The Ethereum address of the asset.
    pub asset: Vec<u8>,
    /// The Ethereum address of the recipient.
    pub recipient: Vec<u8>,
    /// The sending ledger account.
    pub sender: Address,
    /// The amount to transfer.
    pub amount: u64,
}

/// A transfer waiting in the bridge pool.
#[derive(Clone, Debug)]
pub struct PendingTransfer {
    /// The outbound transfer.
    pub transfer: TransferToEthereum,
    /// The relayer's fee, held in escrow.
    pub gas_fee: GasFee,
}

/// The mathematical value of a pending transfer.
pub struct PendingTransferV {
    pub asset: Seq<u8>,
    pub recipient: Seq<u8>,
    pub sender: AddressV,
    pub amount: u64,
    pub fee_amount: u64,
    pub fee_payer: AddressV,
}

impl View for PendingTransfer {
    type V = PendingTransferV;

    open spec fn view(&self) -> PendingTransferV {
        PendingTransferV {
            asset: self.transfer.asset@,
            recipient: self.transfer.recipient@,
            sender: self.transfer.sender@,
            amount: self.transfer.amount,
            fee_amount: self.gas_fee.amount,
            fee_payer: self.gas_fee.payer@,
        }
    }
}

/// The canonical encoding of a pending transfer, the preimage of its
/// identity.
pub open spec fn enc_pending(t: PendingTransferV) -> Seq<u8> {
    enc_bytes(t.asset) + enc_bytes(t.recipient) + enc_bytes(enc_address(t.sender)) + enc_le(
        t.amount as nat,
        8,
    ) + enc_le(t.fee_amount as nat, 8) + enc_bytes(enc_address(t.fee_payer))
}

impl PendingTransfer {
    /// The transfer's identity: the KECCAK digest of its canonical
    /// encoding.
    pub fn keccak256(&self) -> (r: Vec<u8>)
        ensures
            r@ == keccak_of(enc_pending(self@)),
            r@.len() == 32,
    {
        let mut out: Vec<u8> = Vec::new();
        write_bytes(&mut out, &self.transfer.asset);
        write_bytes(&mut out, &self.transfer.recipient);
        let sb = self.transfer.sender.encode();
        write_bytes(&mut out, &sb);
        write_u64(&mut out, self.transfer.amount);
        write_u64(&mut out, self.gas_fee.amount);
        let pb = self.gas_fee.payer.encode();
        write_bytes(&mut out, &pb);
        proof {
            assert(out@ =~= enc_pending(self@));
        }
        keccak256(&out)
    }

    /// The transfer's identity rendered as upper-case hexadecimal, the key
    /// under which the pool lists it.
    pub fn keccak256_hex(&self) -> (r: String)
        ensures
            r@ == spec_hex_chars(keccak_of(enc_pending(self@))),
    {
        let h = self.keccak256();
        bytes_to_hex_upper(&h)
    }
}

/// The storage key of the bridge pool's nonce.
pub open spec fn spec_bp_nonce_key() -> Seq<u8> {
    seq![8u8]
}

/// Builds the storage key of the bridge pool's nonce.
pub fn bp_nonce_key() -> (r: Vec<u8>)
    ensures
        r@ == spec_bp_nonce_key(),
{
    let mut out: Vec<u8> = Vec::new();
    out.push(8u8);
    proof {
        assert(out@ =~= spec_bp_nonce_key());
    }
    out
}

/// The storage key of the stored nonce of one Ethereum event kind.
pub open spec fn spec_event_nonce_key(kind: int) -> Seq<u8> {
    seq![9u8, kind as u8]
}

/// Builds the storage key of an event kind's stored nonce.
pub fn event_nonce_key(e: &EthereumEvent) -> (r: Vec<u8>)
    ensures
        r@ == spec_event_nonce_key(event_kind(e@)),
{
    let tag: u8 = match e {
        EthereumEvent::TransfersToNamada { .. } => 0u8,
        EthereumEvent::ValidatorSetUpdate { .. } => 1u8,
    };
    let mut out: Vec<u8> = Vec::new();
    out.push(9u8);
    out.push(tag);
    proof {
        assert(out@ =~= spec_event_nonce_key(event_kind(e@)));
    }
    out
}

/// Initializes the storage the bridge pool owns: the escrowed gas fees and
/// the pool nonce both start at zero.
pub fn init_storage(store: &mut Store)
    requires
        old(store).wf(),
    ensures
        final(store).wf(),
        ({
            let escrow = spec_balance_key(
                AddressV::Internal(InternalAddress::Nam),
                AddressV::Internal(InternalAddress::BridgePool),
            );
            &&& spec_read_amount(final(store).entries@, escrow) == 0
            &&& spec_read_amount(final(store).entries@, spec_bp_nonce_key()) == 0
            &&& forall|k2: Seq<u8>|
                k2 != escrow && k2 != spec_bp_nonce_key() ==> final(store).get(k2) == old(
                    store,
                ).get(k2)
        }),
{
    let nam = Address::Internal(InternalAddress::Nam);
    let pool = Address::Internal(InternalAddress::BridgePool);
    let escrow_key = balance_key(&nam, &pool);
    write_amount(store, &escrow_key, 0);
    let ghost mid = *store;
    let nonce_key = bp_nonce_key();
    write_amount(store, &nonce_key, 0);
    proof {
        assert(spec_bp_nonce_key() != spec_balance_key(
            AddressV::Internal(InternalAddress::Nam),
            AddressV::Internal(InternalAddress::BridgePool),
        )) by {
            assert(spec_bp_nonce_key().len() == 1);
        };
        assert(store.get(escrow_key@) == mid.get(escrow_key@));
    }
}

/// The balance key an inbound transfer credits: the wrapped asset's
/// established token account, owned by the receiver.
pub open spec fn spec_mint_key(t: TransferToNamadaV) -> Seq<u8> {
    spec_balance_key(AddressV::Established(t.asset), t.receiver)
}

/// A balance credited by an amount, saturating at the counter range.
pub open spec fn spec_credit(bal: int, amount: u64) -> int {
    if bal + amount > u64::MAX {
        u64::MAX as int
    } else {
        bal + amount
    }
}

/// The amount stored under a key after crediting a list of transfers, in
/// order.
pub open spec fn spec_minted(
    entries: Seq<(Vec<u8>, Vec<u8>)>,
    ts: Seq<TransferToNamadaV>,
    k2: Seq<u8>,
) -> int
    decreases ts.len(),
{
    if ts.len() == 0 {
        spec_read_amount(entries, k2)
    } else {
        let prev = spec_minted(entries, ts.drop_last(), k2);
        if k2 == spec_mint_key(ts.last()) {
            spec_credit(prev, ts.last().amount)
        } else {
            prev
        }
    }
}

/// Whether a key is credited by one of the transfers.
pub open spec fn is_mint_key(ts: Seq<TransferToNamadaV>, k2: Seq<u8>) -> bool {
    exists|i: int| 0 <= i < ts.len() && k2 == spec_mint_key(#[trigger] ts[i])
}

/// The transfers an event mints: those of an inbound-transfer event.
pub open spec fn event_transfers(e: EthereumEventV) -> Seq<TransferToNamadaV> {
    match e {
        EthereumEventV::TransfersToNamada { transfers, .. } => transfers,
        EthereumEventV::ValidatorSetUpdate { .. } => Seq::empty(),
    }
}

/// Applies one confirmed Ethereum event to storage. Events are idempotent
/// by their embedded nonce: an event whose nonce is not beyond the stored
/// nonce of its kind leaves the state untouched; a fresh event advances
/// the stored nonce and credits each inbound transfer, in order, to the
/// receiver's balance of the wrapped asset, touching nothing else.
pub fn apply_ethereum_event(store: &mut Store, e: &EthereumEvent)
    requires
        old(store).wf(),
    ensures
        final(store).wf(),
        ({
            let k = spec_event_nonce_key(event_kind(e@));
            let stored = spec_read_amount(old(store).entries@, k);
            let ts = event_transfers(e@);
            &&& (event_nonce(e@) <= stored ==> final(store).entries@ == old(store).entries@)
            &&& (event_nonce(e@) > stored ==> ({
                &&& spec_read_amount(final(store).entries@, k) == event_nonce(e@)
                &&& forall|k2: Seq<u8>| k2 != k ==> spec_read_amount(
                    final(store).entries@,
                    k2,
                ) == spec_minted(old(store).entries@, ts, k2)
                &&& forall|k2: Seq<u8>| k2 != k && !is_mint_key(ts, k2) ==> final(store).get(k2)
                    == old(store).get(k2)
            }))
        }),
{
    let k = event_nonce_key(e);
    let stored = read_amount(store, &k);
    let nonce = match e {
        EthereumEvent::TransfersToNamada { nonce, .. } => *nonce,
        EthereumEvent::ValidatorSetUpdate { nonce } => *nonce,
    };
    if nonce <= stored {
        return ;
    }
    let ghost old_entries = old(store).entries@;
    let ghost tsv = event_transfers(e@);
    match e {
        EthereumEvent::TransfersToNamada { nonce: _n, transfers } => {
            let m = transfers.len();
            proof {
                assert(tsv =~= transfers@.map_values(|t: TransferToNamada| t@));
                assert(tsv.take(0) =~= Seq::<TransferToNamadaV>::empty());
            }
            for j in 0..m
                invariant
                    store.wf(),
                    m == transfers@.len(),
                    tsv == transfers@.map_values(|t: TransferToNamada| t@),
                    old_entries == old(store).entries@,
                    forall|k2: Seq<u8>| spec_read_amount(store.entries@, k2) == spec_minted(
                        old_entries,
                        tsv.take(j as int),
                        k2,
                    ),
                    forall|k2: Seq<u8>| !is_mint_key(tsv.take(j as int), k2) ==> store.get(k2)
                        == spec_get(old_entries, k2),
            {
                // the wrapped asset's token account is the established
                // account named by the asset's Ethereum address
                let token = Address::Established(copy_bytes(&transfers[j].asset));
                let bk = balance_key(&token, &transfers[j].receiver);
                proof {
                    assert(tsv[j as int] == transfers@[j as int]@);
                    assert(bk@ == spec_mint_key(tsv[j as int]));
                }
                let bal = read_amount(store, &bk);
                let amt = transfers[j].amount;
                let credited = if bal > u64::MAX - amt {
                    u64::MAX
                } else {
                    bal + amt
                };
                let ghost pre = *store;
                write_amount(store, &bk, credited);
                proof {
                    let tj = tsv.take(j + 1);
                    assert(tj.drop_last() =~= tsv.take(j as int));
                    assert(tj.last() == tsv[j as int]);
                    assert(tsv[j as int].amount == amt);
                    assert(bal == spec_minted(old_entries, tsv.take(j as int), bk@));
                    assert(credited == spec_credit(
                        spec_minted(old_entries, tsv.take(j as int), bk@),
                        amt,
                    ));
                    assert forall|k2: Seq<u8>| spec_read_amount(store.entries@, k2)
                        == spec_minted(old_entries, tj, k2) by {
                        if k2 == bk@ {
                            assert(spec_read_amount(store.entries@, k2) == credited);
                        } else {
                            assert(spec_read_amount(pre.entries@, k2) == spec_minted(
                                old_entries,
                                tsv.take(j as int),
                                k2,
                            ));
                            assert(store.get(k2) == pre.get(k2));
                            assert(spec_read_amount(store.entries@, k2) == spec_read_amount(
                                pre.entries@,
                                k2,
                            ));
                        }
                    };
                    assert forall|k2: Seq<u8>| !is_mint_key(tj, k2) implies store.get(k2)
                        == spec_get(old_entries, k2) by {
                        assert(k2 != bk@) by {
                            assert(tj[j as int] == tsv[j as int]);
                        };
                        assert(!is_mint_key(tsv.take(j as int), k2)) by {
                            if is_mint_key(tsv.take(j as int), k2) {
                                let i = choose|i: int|
                                    0 <= i < tsv.take(j as int).len() && k2 == spec_mint_key(
                                        #[trigger] tsv.take(j as int)[i],
                                    );
                                assert(tj[i] == tsv.take(j as int)[i]);
                            }
                        };
                        assert(store.get(k2) == pre.get(k2));
                    };
                }
            }
            proof {
                assert(tsv.take(m as int) =~= tsv);
                assert(forall|k2: Seq<u8>| spec_read_amount(store.entries@, k2) == spec_minted(
                    old_entries,
                    tsv,
                    k2,
                ));
            }
        },
        EthereumEvent::ValidatorSetUpdate { .. } => {
            proof {
                assert(tsv =~= Seq::<TransferToNamadaV>::empty());
                assert(forall|k2: Seq<u8>| spec_read_amount(store.entries@, k2) == spec_minted(
                    old_entries,
                    tsv,
                    k2,
                ));
            }
        },
    }
    let ghost pre_nonce = *store;
    write_amount(store, &k, nonce);
    proof {
        assert forall|k2: Seq<u8>| k2 != k@ implies spec_read_amount(store.entries@, k2)
            == spec_minted(old_entries, tsv, k2) by {
            assert(spec_read_amount(pre_nonce.entries@, k2) == spec_minted(old_entries, tsv, k2));
            assert(store.get(k2) == pre_nonce.get(k2));
            assert(spec_read_amount(store.entries@, k2) == spec_read_amount(
                pre_nonce.entries@,
                k2,
            ));
        };
        assert forall|k2: Seq<u8>| k2 != k@ && !is_mint_key(tsv, k2) implies store.get(k2)
            == spec_get(old_entries, k2) by {
            assert(store.get(k2) == pre_nonce.get(k2));
        };
    }
}

/// The per-transfer relay gas, in gwei.
pub const TRANSFER_FEE: i64 = 37_500;

/// The gas of verifying one signature on the Ethereum side, in gwei.
pub const SIGNATURE_FEE: u64 = 24_500;

/// The gas of hashing one validator-set entry on the Ethereum side.
pub const VALSET_FEE: u64 = 2_000;

/// The combined power of a prefix of signing entries.
pub open spec fn spec_powers_sum(ps: Seq<(Seq<u8>, u64)>) -> int
    decreases ps.len(),
{
    if ps.len() == 0 {
        0int
    } else {
        ps[0].1 + spec_powers_sum(ps.drop_first())
    }
}

/// How many signatures the Ethereum contract checks: walking the
/// validators in descending order of power, signers are counted until the
/// accumulated power passes two thirds of the total.
pub open spec fn spec_signature_checks(
    ps: Seq<(Seq<u8>, u64)>,
    sigs: Seq<Seq<u8>>,
    total: int,
    acc: int,
) -> int
    decreases ps.len(),
{
    if ps.len() == 0 {
        0int
    } else if !sigs.contains(ps[0].0) {
        spec_signature_checks(ps.drop_first(), sigs, total, acc)
    } else if 3 * acc <= 2 * total {
        1 + spec_signature_checks(ps.drop_first(), sigs, total, acc + ps[0].1)
    } else {
        0int
    }
}

/// Whether a list of byte keys carries the given key.
fn keys_contain(keys: &Vec<Vec<u8>>, k: &Vec<u8>) -> (r: bool)
    ensures
        r == view_seqs_local(keys@).contains(k@),
{
    let n = keys.len();
    for i in 0..n
        invariant
            n == keys@.len(),
            forall|j: int| 0 <= j < i ==> view_seqs_local(keys@)[j] != k@,
    {
        if bytes_eq(&keys[i], k) {
            proof {
                assert(view_seqs_local(keys@)[i as int] == k@);
            }
            return true;
        }
    }
    proof {
        if view_seqs_local(keys@).contains(k@) {
            let j = choose|j: int|
                0 <= j < view_seqs_local(keys@).len() && view_seqs_local(keys@)[j] == k@;
            assert(false);
        }
    }
    false
}

/// The views of a vector of byte keys.
pub open spec fn view_seqs_local(v: Seq<Vec<u8>>) -> Seq<Seq<u8>> {
    Seq::new(v.len(), |i: int| v[i]@)
}

/// Given validators sorted by descending power, counts the size of the
/// first subset of signers whose power passes the two-thirds majority.
pub fn signature_checks(voting_powers: &Vec<(Vec<u8>, u64)>, sigs: &Vec<Vec<u8>>) -> (r: u64)
    requires
        powers_sorted_desc(voting_powers@.map_values(|p: (Vec<u8>, u64)| (p.0@, p.1))),
        spec_powers_sum(
            voting_powers@.map_values(|p: (Vec<u8>, u64)| (p.0@, p.1)),
        ) <= u64::MAX,
    ensures
        ({
            let ps = voting_powers@.map_values(|p: (Vec<u8>, u64)| (p.0@, p.1));
            r == spec_signature_checks(ps, view_seqs_local(sigs@), spec_powers_sum(ps), 0)
        }),
{
    let ghost ps = voting_powers@.map_values(|p: (Vec<u8>, u64)| (p.0@, p.1));
    let ghost total_s = spec_powers_sum(ps);
    let mut total: u64 = 0;
    let n = voting_powers.len();
    proof {
        assert(ps.skip(0) =~= ps);
        lemma_powers_sum_nonneg(ps);
    }
    for i in 0..n
        invariant
            n == voting_powers@.len(),
            ps == voting_powers@.map_values(|p: (Vec<u8>, u64)| (p.0@, p.1)),
            total_s == spec_powers_sum(ps),
            total_s <= u64::MAX,
            total + spec_powers_sum(ps.skip(i as int)) == total_s,
    {
        proof {
            assert(ps.skip(i as int)[0] == ps[i as int]);
            assert(ps.skip(i as int).drop_first() =~= ps.skip(i + 1));
            assert(ps[i as int] == (voting_powers@[i as int].0@, voting_powers@[i as int].1));
            lemma_powers_sum_nonneg(ps.skip(i + 1));
        }
        total = total + voting_powers[i].1;
    }
    proof {
        assert(ps.skip(n as int) =~= Seq::<(Seq<u8>, u64)>::empty());
    }
    let mut acc: u64 = 0;
    let mut count: u64 = 0;
    proof {
        assert(ps.skip(0) =~= ps);
    }
    for i in 0..n
        invariant
            n == voting_powers@.len(),
            ps == voting_powers@.map_values(|p: (Vec<u8>, u64)| (p.0@, p.1)),
            total == spec_powers_sum(ps),
            total <= u64::MAX,
            0 <= acc <= total,
            count + spec_signature_checks(
                ps.skip(i as int),
                view_seqs_local(sigs@),
                total as int,
                acc as int,
            ) == spec_signature_checks(ps, view_seqs_local(sigs@), total as int, 0),
            acc + spec_powers_sum(ps.skip(i as int)) <= total,
            count <= i,
    {
        proof {
            assert(ps.skip(i as int)[0] == ps[i as int]);
            assert(ps.skip(i as int).drop_first() =~= ps.skip(i + 1));
            assert(ps[i as int] == (voting_powers@[i as int].0@, voting_powers@[i as int].1));
            lemma_powers_sum_nonneg(ps.skip(i + 1));
            lemma_checks_nonneg(ps.skip(i + 1), view_seqs_local(sigs@));
        }
        if keys_contain(sigs, &voting_powers[i].0) {
            if 3 * (acc as u128) <= 2 * (total as u128) {
                count = count + 1;
                acc = acc + voting_powers[i].1;
            } else {
                proof {
                    assert(spec_signature_checks(
                        ps.skip(i as int),
                        view_seqs_local(sigs@),
                        total as int,
                        acc as int,
                    ) == 0);
                    assert(spec_signature_checks(
                        ps.skip(i + 1),
                        view_seqs_local(sigs@),
                        total as int,
                        acc as int,
                    ) == 0) by {
                        lemma_checks_stop(ps.skip(i + 1), view_seqs_local(sigs@), total as int,
                            acc as int);
                    };
                }
            }
        }
    }
    proof {
        assert(ps.skip(n as int) =~= Seq::<(Seq<u8>, u64)>::empty());
    }
    count
}

/// Power sums are never negative.
pub proof fn lemma_powers_sum_nonneg(ps: Seq<(Seq<u8>, u64)>)
    ensures
        spec_powers_sum(ps) >= 0,
    decreases ps.len(),
{
    if ps.len() > 0 {
        lemma_powers_sum_nonneg(ps.drop_first());
    }
}

/// Signature counts are never negative.
pub proof fn lemma_checks_nonneg(ps: Seq<(Seq<u8>, u64)>, sigs: Seq<Seq<u8>>)
    ensures
        forall|total: int, acc: int| #![auto] spec_signature_checks(ps, sigs, total, acc) >= 0,
    decreases ps.len(),
{
    if ps.len() > 0 {
        lemma_checks_nonneg(ps.drop_first(), sigs);
        assert forall|total: int, acc: int| #![auto] spec_signature_checks(
            ps,
            sigs,
            total,
            acc,
        ) >= 0 by {
            if !sigs.contains(ps[0].0) {
                assert(spec_signature_checks(ps.drop_first(), sigs, total, acc) >= 0);
            } else if 3 * acc <= 2 * total {
                assert(spec_signature_checks(ps.drop_first(), sigs, total, acc + ps[0].1) >= 0);
            }
        };
    }
}

/// Once the accumulated power passes the bound, nothing more is counted.
pub proof fn lemma_checks_stop(ps: Seq<(Seq<u8>, u64)>, sigs: Seq<Seq<u8>>, total: int, acc: int)
    requires
        3 * acc > 2 * total,
    ensures
        spec_signature_checks(ps, sigs, total, acc) == 0,
    decreases ps.len(),
{
    if ps.len() > 0 {
        lemma_checks_stop(ps.drop_first(), sigs, total, acc);
    }
}


/// The view of one costed recommender input: identity characters, relay
/// cost, escrowed fee.
pub open spec fn cost_item_view(c: (String, i64, PendingTransfer)) -> (Seq<char>, int, int) {
    (c.0@, c.1 as int, c.2.gas_fee.amount as int)
}

/// The running state of the batch recommender.
pub struct GenState {
    pub gas: int,
    pub cost: int,
    pub fees: int,
    pub feasible: bool,
    pub rec: Seq<Seq<char>>,
    pub stopped: bool,
}

/// The recommender's start state: the validator gas is both the gas floor
/// and the cost floor.
pub open spec fn gen_init(validator_gas: u64) -> GenState {
    GenState {
        gas: validator_gas as int,
        cost: validator_gas as int,
        fees: 0int,
        feasible: false,
        rec: Seq::empty(),
        stopped: false,
    }
}

/// One step of the recommender over a transfer with the given identity,
/// relay cost and escrowed fee. Profitable transfers are taken while they
/// fit; in generous mode unprofitable ones are taken too, until the
/// budget, once reached, would be left again.
pub open spec fn gen_step(
    st: GenState,
    hash: Seq<char>,
    cost: int,
    fee: int,
    greedy: bool,
    max_gas: int,
    max_cost: int,
) -> GenState {
    if st.stopped {
        st
    } else {
        let ngas = st.gas + TRANSFER_FEE;
        let ncost = st.cost + cost;
        let nfees = st.fees + fee;
        if cost < 0 {
            if ngas <= max_gas && ncost <= max_cost {
                GenState {
                    gas: ngas,
                    cost: ncost,
                    fees: nfees,
                    feasible: true,
                    rec: st.rec.push(hash),
                    stopped: false,
                }
            } else if st.feasible {
                GenState { stopped: true, ..st }
            } else {
                GenState {
                    gas: ngas,
                    cost: ncost,
                    fees: nfees,
                    feasible: st.feasible,
                    rec: st.rec.push(hash),
                    stopped: false,
                }
            }
        } else if !greedy {
            if st.feasible && !(ngas <= max_gas && ncost <= max_cost) {
                GenState { stopped: true, ..st }
            } else {
                GenState {
                    gas: ngas,
                    cost: ncost,
                    fees: nfees,
                    feasible: st.feasible,
                    rec: st.rec.push(hash),
                    stopped: false,
                }
            }
        } else {
            GenState { stopped: true, ..st }
        }
    }
}

/// The recommender run over a whole list of transfers.
pub open spec fn gen_run(
    items: Seq<(Seq<char>, int, int)>,
    validator_gas: u64,
    greedy: bool,
    max_gas: int,
    max_cost: int,
) -> GenState
    decreases items.len(),
{
    if items.len() == 0 {
        gen_init(validator_gas)
    } else {
        gen_step(
            gen_run(items.drop_last(), validator_gas, greedy, max_gas, max_cost),
            items.last().0,
            items.last().1,
            items.last().2,
            greedy,
            max_gas,
            max_cost,
        )
    }
}

/// Generates the recommendation from the given restrictions: the
/// identities of the selected transfers, or nothing when no feasible,
/// non-empty batch exists. Transfers must come sorted by ascending cost;
/// a non-positive cost budget selects greedy mode.
pub fn generate(
    contents: &Vec<(String, i64, PendingTransfer)>,
    validator_gas: u64,
    max_gas: u64,
    max_cost: i64,
) -> (r: Option<Vec<String>>)
    requires
        contents@.len() < 0x4000000000000000,
    ensures
        ({
            let run = gen_run(
                contents@.map_values(|c: (String, i64, PendingTransfer)| cost_item_view(c)),
                validator_gas,
                max_cost <= 0,
                max_gas as int,
                max_cost as int,
            );
            match r {
                Some(v) => run.feasible && run.rec.len() > 0 && v@.map_values(|s: String| s@)
                    == run.rec,
                None => !(run.feasible && run.rec.len() > 0),
            }
        }),
{
    let ghost items = contents@.map_values(|c: (String, i64, PendingTransfer)| cost_item_view(c));
    let greedy = max_cost <= 0;
    let mut gas: i128 = validator_gas as i128;
    let mut cost: i128 = validator_gas as i128;
    let mut fees: i128 = 0;
    let mut feasible = false;
    let mut stopped = false;
    let mut rec: Vec<String> = Vec::new();
    let n = contents.len();
    proof {
        assert(items.take(0) =~= Seq::<(Seq<char>, int, int)>::empty());
        assert(rec@.map_values(|s: String| s@) =~= Seq::<Seq<char>>::empty());
    }
    for i in 0..n
        invariant
            n == contents@.len(),
            n < 0x4000000000000000,
            items == contents@.map_values(|c: (String, i64, PendingTransfer)| cost_item_view(c)),
            ({
                let run = gen_run(
                    items.take(i as int),
                    validator_gas,
                    greedy,
                    max_gas as int,
                    max_cost as int,
                );
                &&& gas == run.gas
                &&& cost == run.cost
                &&& fees == run.fees
                &&& feasible == run.feasible
                &&& stopped == run.stopped
                &&& rec@.map_values(|s: String| s@) == run.rec
            }),
            gas <= validator_gas + i * (TRANSFER_FEE as int),
            cost <= validator_gas + i * 0x8000000000000000,
            cost >= -(i as int) * 0x8000000000000000,
            0 <= fees <= i * 0xFFFFFFFFFFFFFFFF,
            greedy == (max_cost <= 0),
    {
        proof {
            assert(items.take(i + 1).drop_last() =~= items.take(i as int));
            assert(items.take(i + 1).last() == items[i as int]);
            assert(items[i as int] == cost_item_view(contents@[i as int]));
            assert((i + 1) * 0x8000000000000000 == i * 0x8000000000000000 + 0x8000000000000000)
                by (nonlinear_arith)
            ;
            assert((i + 1) * (TRANSFER_FEE as int) == i * (TRANSFER_FEE as int) + (
            TRANSFER_FEE as int)) by (nonlinear_arith);
            assert((i + 1) * 0xFFFFFFFFFFFFFFFF == i * 0xFFFFFFFFFFFFFFFF + 0xFFFFFFFFFFFFFFFF)
                by (nonlinear_arith)
            ;
            assert(i * 0x8000000000000000 <= 0x4000000000000000 * 0x8000000000000000)
                by (nonlinear_arith)
                requires
                    0 <= i <= 0x4000000000000000,
            ;
            assert(i * 0xFFFFFFFFFFFFFFFF <= 0x4000000000000000 * 0xFFFFFFFFFFFFFFFF)
                by (nonlinear_arith)
                requires
                    0 <= i <= 0x4000000000000000,
            ;
            assert(i * (TRANSFER_FEE as int) <= 0x4000000000000000 * (TRANSFER_FEE as int))
                by (nonlinear_arith)
                requires
                    0 <= i <= 0x4000000000000000,
            ;
        }
        if !stopped {
            let item_cost = contents[i].1;
            let ngas: i128 = gas + (TRANSFER_FEE as i128);
            let ncost: i128 = cost + (item_cost as i128);
            let nfees: i128 = fees + (contents[i].2.gas_fee.amount as i128);
            if item_cost < 0 {
                if ngas <= max_gas as i128 && ncost <= max_cost as i128 {
                    gas = ngas;
                    cost = ncost;
                    fees = nfees;
                    feasible = true;
                    rec.push(copy_string(&contents[i].0));
                } else if feasible {
                    stopped = true;
                } else {
                    gas = ngas;
                    cost = ncost;
                    fees = nfees;
                    rec.push(copy_string(&contents[i].0));
                }
            } else if !greedy {
                if feasible && !(ngas <= max_gas as i128 && ncost <= max_cost as i128) {
                    stopped = true;
                } else {
                    gas = ngas;
                    cost = ncost;
                    fees = nfees;
                    rec.push(copy_string(&contents[i].0));
                }
            } else {
                stopped = true;
            }
        }
        proof {
            let prev = gen_run(
                items.take(i as int),
                validator_gas,
                greedy,
                max_gas as int,
                max_cost as int,
            );
            let now = gen_run(
                items.take(i + 1),
                validator_gas,
                greedy,
                max_gas as int,
                max_cost as int,
            );
            assert(now == gen_step(
                prev,
                items[i as int].0,
                items[i as int].1,
                items[i as int].2,
                greedy,
                max_gas as int,
                max_cost as int,
            ));
            assert(rec@.map_values(|s: String| s@) =~= now.rec);
        }
    }
    proof {
        assert(items.take(n as int) =~= items);
    }
    if feasible && rec.len() > 0 {
        Some(rec)
    } else {
        None
    }
}

/// Copies a string.
pub fn copy_string(s: &String) -> (r: String)
    ensures
        r@ == s@,
{
    String::from_str(s.as_str())
}


/// Inserts an item before the first entry with a strictly larger cost.
pub open spec fn sorted_insert(
    s: Seq<(Seq<char>, int, int)>,
    x: (Seq<char>, int, int),
) -> Seq<(Seq<char>, int, int)>
    decreases s.len(),
{
    if s.len() > 0 && s[0].1 <= x.1 {
        seq![s[0]] + sorted_insert(s.drop_first(), x)
    } else {
        seq![x] + s
    }
}

/// The stable sort of the inputs by ascending cost.
pub open spec fn spec_sort(items: Seq<(Seq<char>, int, int)>) -> Seq<(Seq<char>, int, int)>
    decreases items.len(),
{
    if items.len() == 0 {
        Seq::empty()
    } else {
        sorted_insert(spec_sort(items.drop_last()), items.last())
    }
}

/// Inserting before the first strictly-larger entry is insertion at that
/// position.
proof fn lemma_sorted_insert_at(
    s: Seq<(Seq<char>, int, int)>,
    x: (Seq<char>, int, int),
    idx: int,
)
    requires
        0 <= idx <= s.len(),
        forall|k: int| 0 <= k < idx ==> (#[trigger] s[k]).1 <= x.1,
        idx < s.len() ==> s[idx].1 > x.1,
    ensures
        sorted_insert(s, x) == s.insert(idx, x),
    decreases idx,
{
    if idx == 0 {
        if s.len() > 0 {
            assert(s[0].1 > x.1);
        }
        assert(sorted_insert(s, x) =~= s.insert(0, x));
    } else {
        assert(s[0].1 <= x.1);
        lemma_sorted_insert_at(s.drop_first(), x, idx - 1);
        assert(s.drop_first().insert(idx - 1, x) =~= s.insert(idx, x).drop_first());
        assert(sorted_insert(s, x) =~= seq![s[0]] + s.drop_first().insert(idx - 1, x));
        assert(s.insert(idx, x)[0] == s[0]);
        assert(sorted_insert(s, x) =~= s.insert(idx, x));
    }
}

/// Sorts recommender inputs by ascending relay cost; equal costs keep
/// their order.
pub fn sort_by_cost(contents: Vec<(String, i64, PendingTransfer)>) -> (r: Vec<
    (String, i64, PendingTransfer),
>)
    ensures
        r@.map_values(|c: (String, i64, PendingTransfer)| cost_item_view(c)) == spec_sort(
            contents@.map_values(|c: (String, i64, PendingTransfer)| cost_item_view(c)),
        ),
{
    let ghost items = contents@.map_values(|c: (String, i64, PendingTransfer)| cost_item_view(c));
    let mut rest = contents;
    let mut out: Vec<(String, i64, PendingTransfer)> = Vec::new();
    let ghost mut done: int = 0;
    proof {
        assert(rest@.map_values(|c: (String, i64, PendingTransfer)| cost_item_view(c)) =~= items
            .skip(0));
        assert(items.take(0) =~= Seq::<(Seq<char>, int, int)>::empty());
        assert(out@.map_values(|c: (String, i64, PendingTransfer)| cost_item_view(c))
            =~= spec_sort(items.take(0)));
    }
    while rest.len() > 0
        invariant
            0 <= done <= items.len(),
            rest@.len() == items.len() - done,
            rest@.map_values(|c: (String, i64, PendingTransfer)| cost_item_view(c)) == items.skip(
                done,
            ),
            out@.map_values(|c: (String, i64, PendingTransfer)| cost_item_view(c)) == spec_sort(
                items.take(done),
            ),
        decreases rest@.len(),
    {
        let ghost rv_old = rest@;
        let c = rest.remove(0);
        proof {
            assert(cost_item_view(c) == items.skip(done)[0]);
            assert(items.skip(done)[0] == items[done]);
            assert(rest@ =~= rv_old.drop_first());
            assert forall|k: int| 0 <= k < rest@.len() implies rest@.map_values(
                |x: (String, i64, PendingTransfer)| cost_item_view(x),
            )[k] == #[trigger] (items.skip(done + 1)[k]) by {
                assert(rest@[k] == rv_old[k + 1]);
                assert(rv_old.map_values(|x: (String, i64, PendingTransfer)| cost_item_view(x))[
                    k + 1] == items.skip(done)[k + 1]);
                assert(items.skip(done)[k + 1] == items[done + 1 + k]);
            };
            assert(rest@.map_values(|x: (String, i64, PendingTransfer)| cost_item_view(x))
                =~= items.skip(done + 1));
        }
        let mut idx: usize = 0;
        let olen = out.len();
        while idx < olen && out[idx].1 <= c.1
            invariant
                olen == out@.len(),
                idx <= olen,
                forall|k: int| 0 <= k < idx ==> (#[trigger] out@[k]).1 <= c.1,
            decreases olen - idx,
        {
            idx = idx + 1;
        }
        let ghost ov = out@.map_values(|x: (String, i64, PendingTransfer)| cost_item_view(x));
        let ghost cv = cost_item_view(c);
        out.insert(idx, c);
        proof {
            assert(forall|k: int| 0 <= k < idx ==> (#[trigger] ov[k]).1 <= cv.1);
            if (idx as int) < ov.len() {
                assert(ov[idx as int].1 > cv.1);
            }
            lemma_sorted_insert_at(ov, cv, idx as int);
            assert(out@.map_values(|x: (String, i64, PendingTransfer)| cost_item_view(x)) =~= ov
                .insert(idx as int, cv));
            assert(items.take(done + 1).drop_last() =~= items.take(done));
            assert(items.take(done + 1).last() == items[done]);
            done = done + 1;
        }
    }
    proof {
        assert(items.take(done) =~= items);
    }
    out
}

/// Whether two pending transfers are equal.
pub fn pending_eq(a: &PendingTransfer, b: &PendingTransfer) -> (r: bool)
    ensures
        r <==> a@ == b@,
{
    bytes_eq(&a.transfer.asset, &b.transfer.asset) && bytes_eq(
        &a.transfer.recipient,
        &b.transfer.recipient,
    ) && crate::address::address_eq(&a.transfer.sender, &b.transfer.sender) && a.transfer.amount
        == b.transfer.amount && a.gas_fee.amount == b.gas_fee.amount
        && crate::address::address_eq(&a.gas_fee.payer, &b.gas_fee.payer)
}

/// Copies a pending transfer.
pub fn copy_pending(t: &PendingTransfer) -> (r: PendingTransfer)
    ensures
        r@ == t@,
{
    PendingTransfer {
        transfer: TransferToEthereum {
            asset: copy_bytes(&t.transfer.asset),
            recipient: copy_bytes(&t.transfer.recipient),
            sender: copy_address(&t.transfer.sender),
            amount: t.transfer.amount,
        },
        gas_fee: GasFee { amount: t.gas_fee.amount, payer: copy_address(&t.gas_fee.payer) },
    }
}

/// The costed inputs of the recommender: every pool transfer not already
/// being relayed, keyed by identity, with its net relay cost.
pub open spec fn spec_costs(
    pool: Seq<PendingTransferV>,
    in_progress: Seq<PendingTransferV>,
    gwei_per_nam: int,
) -> Seq<(Seq<char>, int, int)>
    decreases pool.len(),
{
    if pool.len() == 0 {
        Seq::empty()
    } else {
        let rest = spec_costs(pool.drop_first(), in_progress, gwei_per_nam);
        if in_progress.contains(pool[0]) {
            rest
        } else {
            seq![
                (
                    spec_hex_chars(keccak_of(enc_pending(pool[0]))),
                    TRANSFER_FEE - pool[0].fee_amount * gwei_per_nam,
                    pool[0].fee_amount as int,
                ),
            ] + rest
        }
    }
}

/// Whether a list of transfers carries the given one.
fn pendings_contain(ts: &Vec<PendingTransfer>, t: &PendingTransfer) -> (r: bool)
    ensures
        r == ts@.map_values(|x: PendingTransfer| x@).contains(t@),
{
    let ghost tv = ts@.map_values(|x: PendingTransfer| x@);
    let n = ts.len();
    for i in 0..n
        invariant
            n == ts@.len(),
            tv == ts@.map_values(|x: PendingTransfer| x@),
            forall|k: int| 0 <= k < i ==> tv[k] != t@,
    {
        if pending_eq(&ts[i], t) {
            proof {
                assert(tv[i as int] == t@);
            }
            return true;
        }
    }
    proof {
        if tv.contains(t@) {
            let j = choose|j: int| 0 <= j < tv.len() && tv[j] == t@;
            assert(false);
        }
    }
    false
}

/// Recommends the most economical batch of transfers to relay, given an
/// estimate of gwei per native token and gas-use heuristics: the validator
/// gas covers the quorum's signature checks and the validator-set hashing,
/// each transfer's cost nets its escrowed fee against the relay gas, and
/// the cheapest transfers are taken first.
pub fn recommend_batch(
    pool: &Vec<PendingTransfer>,
    in_progress: &Vec<PendingTransfer>,
    voting_powers: &Vec<(Vec<u8>, u64)>,
    sigs: &Vec<Vec<u8>>,
    gwei_per_nam: u64,
    max_gas: u64,
    max_cost: i64,
) -> (r: Option<Vec<String>>)
    requires
        powers_sorted_desc(voting_powers@.map_values(|p: (Vec<u8>, u64)| (p.0@, p.1))),
        spec_powers_sum(voting_powers@.map_values(|p: (Vec<u8>, u64)| (p.0@, p.1))) <= u64::MAX,
        26_500 * voting_powers@.len() <= u64::MAX,
        pool@.len() < 0x4000000000000000,
        forall|i: int| 0 <= i < pool@.len() ==> (#[trigger] pool@[i])@.fee_amount * gwei_per_nam
            <= 0x7FFFFFFFFFFFFFFF,
    ensures
        ({
            let ps = voting_powers@.map_values(|p: (Vec<u8>, u64)| (p.0@, p.1));
            let checks = spec_signature_checks(
                ps,
                view_seqs_local(sigs@),
                spec_powers_sum(ps),
                0,
            );
            let validator_gas = SIGNATURE_FEE * checks + VALSET_FEE * ps.len();
            let items = spec_sort(
                spec_costs(
                    pool@.map_values(|t: PendingTransfer| t@),
                    in_progress@.map_values(|t: PendingTransfer| t@),
                    gwei_per_nam as int,
                ),
            );
            let run = gen_run(
                items,
                validator_gas as u64,
                max_cost <= 0,
                max_gas as int,
                max_cost as int,
            );
            match r {
                Some(v) => run.feasible && run.rec.len() > 0 && v@.map_values(|s: String| s@)
                    == run.rec,
                None => !(run.feasible && run.rec.len() > 0),
            }
        }),
{
    let checks = signature_checks(voting_powers, sigs);
    proof {
        let ps = voting_powers@.map_values(|p: (Vec<u8>, u64)| (p.0@, p.1));
        lemma_checks_count_bound(ps, view_seqs_local(sigs@));
        lemma_checks_nonneg(ps, view_seqs_local(sigs@));
        assert(24_500 * (checks as int) <= 24_500 * ps.len()) by (nonlinear_arith)
            requires
                0 <= checks <= ps.len(),
        ;
        assert(24_500 * ps.len() + 2_000 * ps.len() <= 26_500 * ps.len()) by (nonlinear_arith);
    }
    let validator_gas: u64 = SIGNATURE_FEE * checks + VALSET_FEE * (voting_powers.len() as u64);
    let mut contents: Vec<(String, i64, PendingTransfer)> = Vec::new();
    let n = pool.len();
    let ghost pv = pool@.map_values(|t: PendingTransfer| t@);
    let ghost iv = in_progress@.map_values(|t: PendingTransfer| t@);
    proof {
        assert(pv.skip(0) =~= pv);
        if spec_costs(pv, iv, gwei_per_nam as int).len() >= 0 {
            assert(contents@.map_values(|c: (String, i64, PendingTransfer)| cost_item_view(c))
                + spec_costs(pv.skip(0), iv, gwei_per_nam as int) =~= spec_costs(
                pv,
                iv,
                gwei_per_nam as int,
            ));
        }
    }
    for i in 0..n
        invariant
            n == pool@.len(),
            pv == pool@.map_values(|t: PendingTransfer| t@),
            iv == in_progress@.map_values(|t: PendingTransfer| t@),
            n < 0x4000000000000000,
            contents@.len() <= i,
            forall|k: int| 0 <= k < pool@.len() ==> (#[trigger] pool@[k])@.fee_amount
                * gwei_per_nam <= 0x7FFFFFFFFFFFFFFF,
            contents@.map_values(|c: (String, i64, PendingTransfer)| cost_item_view(c))
                + spec_costs(pv.skip(i as int), iv, gwei_per_nam as int) == spec_costs(
                pv,
                iv,
                gwei_per_nam as int,
            ),
    {
        proof {
            assert(pv.skip(i as int)[0] == pv[i as int]);
            assert(pv.skip(i as int).drop_first() =~= pv.skip(i + 1));
            assert(pv[i as int] == pool@[i as int]@);
        }
        if !pendings_contain(in_progress, &pool[i]) {
            let hash = pool[i].keccak256_hex();
            let fee_gwei: u64 = pool[i].gas_fee.amount * gwei_per_nam;
            let cost: i64 = TRANSFER_FEE - (fee_gwei as i64);
            let ghost old_contents = contents@;
            contents.push((hash, cost, copy_pending(&pool[i])));
            proof {
                assert(contents@.map_values(
                    |c: (String, i64, PendingTransfer)| cost_item_view(c),
                ) =~= old_contents.map_values(
                    |c: (String, i64, PendingTransfer)| cost_item_view(c),
                ).push(
                    (
                        spec_hex_chars(keccak_of(enc_pending(pv[i as int]))),
                        TRANSFER_FEE - pv[i as int].fee_amount * gwei_per_nam,
                        pv[i as int].fee_amount as int,
                    ),
                ));
                assert(forall|a: Seq<(Seq<char>, int, int)>, x: (Seq<char>, int, int), b: Seq<
                    (Seq<char>, int, int),
                >| #![auto] a.push(x) + b =~= a + (seq![x] + b));
            }
        }
    }
    proof {
        assert(pv.skip(n as int) =~= Seq::<PendingTransferV>::empty());
        assert(contents@.map_values(|c: (String, i64, PendingTransfer)| cost_item_view(c))
            + Seq::<(Seq<char>, int, int)>::empty() =~= contents@.map_values(
            |c: (String, i64, PendingTransfer)| cost_item_view(c),
        ));
    }
    let sorted = sort_by_cost(contents);
    proof {
        lemma_spec_sort_len(spec_costs(pv, iv, gwei_per_nam as int));
        assert(sorted@.map_values(|c: (String, i64, PendingTransfer)| cost_item_view(c)).len()
            == sorted@.len());
        let ps = voting_powers@.map_values(|p: (Vec<u8>, u64)| (p.0@, p.1));
        let checks_s = spec_signature_checks(ps, view_seqs_local(sigs@), spec_powers_sum(ps), 0);
        assert(SIGNATURE_FEE * checks_s <= 24_500 * ps.len()) by (nonlinear_arith)
            requires
                0 <= checks_s <= ps.len(),
        ;
        assert(24_500 * ps.len() + 2_000 * ps.len() <= 26_500 * ps.len()) by (nonlinear_arith);
        assert(validator_gas as int == SIGNATURE_FEE * checks_s + VALSET_FEE * ps.len());
    }
    generate(&sorted, validator_gas, max_gas, max_cost)
}

/// The count of signature checks never exceeds the validator count.
pub proof fn lemma_checks_count_bound(ps: Seq<(Seq<u8>, u64)>, sigs: Seq<Seq<u8>>)
    ensures
        forall|total: int, acc: int| #![auto] spec_signature_checks(ps, sigs, total, acc)
            <= ps.len(),
    decreases ps.len(),
{
    if ps.len() > 0 {
        lemma_checks_count_bound(ps.drop_first(), sigs);
        assert forall|total: int, acc: int| #![auto] spec_signature_checks(
            ps,
            sigs,
            total,
            acc,
        ) <= ps.len() by {
            if !sigs.contains(ps[0].0) {
                assert(spec_signature_checks(ps.drop_first(), sigs, total, acc) <= ps.len() - 1);
            } else if 3 * acc <= 2 * total {
                assert(spec_signature_checks(ps.drop_first(), sigs, total, acc + ps[0].1)
                    <= ps.len() - 1);
            }
        };
    }
}

/// Sorting keeps the number of items.
pub proof fn lemma_spec_sort_len(items: Seq<(Seq<char>, int, int)>)
    ensures
        spec_sort(items).len() == items.len(),
    decreases items.len(),
{
    if items.len() > 0 {
        lemma_spec_sort_len(items.drop_last());
        lemma_sorted_insert_len(spec_sort(items.drop_last()), items.last());
    }
}

/// Inserting adds one item.
pub proof fn lemma_sorted_insert_len(s: Seq<(Seq<char>, int, int)>, x: (Seq<char>, int, int))
    ensures
        sorted_insert(s, x).len() == s.len() + 1,
    decreases s.len(),
{
    if s.len() > 0 && s[0].1 <= x.1 {
        lemma_sorted_insert_len(s.drop_first(), x);
    }
}


/// Whether a constructed batch proof can be relayed: the batch nonce must
/// be strictly beyond the nonce the Ethereum contract stores.
pub fn proof_relayable(batch_nonce: u64, contract_nonce: u64) -> (r: bool)
    ensures
        r == (batch_nonce > contract_nonce),
{
    batch_nonce > contract_nonce
}

/// The sum of a list of numbers.
pub open spec fn spec_sum(fees: Seq<u64>) -> int
    decreases fees.len(),
{
    if fees.len() == 0 {
        0int
    } else {
        fees[0] + spec_sum(fees.drop_first())
    }
}

/// Sums are never negative.
pub proof fn lemma_sum_nonneg(fees: Seq<u64>)
    ensures
        spec_sum(fees) >= 0,
    decreases fees.len(),
{
    if fees.len() > 0 {
        lemma_sum_nonneg(fees.drop_first());
    }
}

/// The total fee a decoded batch proof pays its relayer.
pub fn total_fees(fees: &Vec<u64>) -> (r: u64)
    requires
        spec_sum(fees@) <= u64::MAX,
    ensures
        r == spec_sum(fees@),
{
    let mut acc: u64 = 0;
    let n = fees.len();
    proof {
        assert(fees@.skip(0) =~= fees@);
    }
    for i in 0..n
        invariant
            n == fees@.len(),
            spec_sum(fees@) <= u64::MAX,
            acc + spec_sum(fees@.skip(i as int)) == spec_sum(fees@),
    {
        proof {
            assert(fees@.skip(i as int)[0] == fees@[i as int]);
            assert(fees@.skip(i as int).drop_first() =~= fees@.skip(i + 1));
            lemma_sum_nonneg(fees@.skip(i + 1));
        }
        acc = acc + fees[i];
    }
    proof {
        assert(fees@.skip(n as int) =~= Seq::<u64>::empty());
    }
    acc
}

/// Whether entries come sorted by descending power, as the contract walks
/// them.
pub open spec fn powers_sorted_desc(ps: Seq<(Seq<u8>, u64)>) -> bool {
    forall|i: int, j: int| 0 <= i < j < ps.len() ==> (#[trigger] ps[i]).1 >= (#[trigger] ps[j]).1
}

} // verus!
